//! L-HEVC records (ISO/IEC 14496-15 §9): the `lhvC` decoder configuration of
//! `lhv1` image items and the `oinf` operating points property (HEIF Annex
//! B.2.3.2, B.2.2.1.3).
use crate::avcc::{at_most, clamped_length_code};
use crate::boxes::Reader;
use crate::bytes::{
    be16, be32, clone_vec, copy_of, copy_vec, enc16, enc32, lemma_assoc, lists, put, put16, put32, span, views,
};
use crate::error::{outcome, ErrorKind, HeifError, Result};
use crate::hvcc::{
    arrays_fit, bit, layer_id_of, nal_arrays_at, nal_arrays_bytes, put_array_type, put_nal_list,
    read_nal_arrays, NalArray, NalArrayModel,
};
use crate::text::{concat, decimal};
use vstd::prelude::*;

pub mod round_trip;

verus! {

/// Parsed `lhvC` record.
#[derive(Debug, PartialEq, Eq)]
pub struct LhevcConfig {
    /// `configurationVersion` (1).
    pub configuration_version: u8,
    /// `min_spatial_segmentation_idc`.
    pub min_spatial_segmentation_idc: u16,
    /// `parallelismType`.
    pub parallelism_type: u8,
    /// `numTemporalLayers`.
    pub num_temporal_layers: u8,
    /// `temporalIdNested`.
    pub temporal_id_nested: bool,
    /// `lengthSizeMinusOne + 1`.
    pub length_size: u8,
    /// The parameter-set / SEI arrays.
    pub arrays: Vec<NalArray>,
    /// The record bytes as parsed / serialized.
    pub raw: Vec<u8>,
}

/// Model of [`LhevcConfig`].
#[verifier::ext_equal]
pub struct LhevcModel {
    /// `configurationVersion` (1).
    pub configuration_version: u8,
    /// `min_spatial_segmentation_idc`.
    pub min_spatial_segmentation_idc: u16,
    /// `parallelismType`.
    pub parallelism_type: u8,
    /// `numTemporalLayers`.
    pub num_temporal_layers: u8,
    /// `temporalIdNested`.
    pub temporal_id_nested: bool,
    /// `lengthSizeMinusOne + 1`.
    pub length_size: u8,
    /// The parameter-set / SEI arrays.
    pub arrays: Seq<NalArrayModel>,
    /// The record bytes as parsed / serialized.
    pub raw: Seq<u8>,
}

impl View for LhevcConfig {
    type V = LhevcModel;

    open spec fn view(&self) -> LhevcModel {
        LhevcModel {
            configuration_version: self.configuration_version,
            min_spatial_segmentation_idc: self.min_spatial_segmentation_idc,
            parallelism_type: self.parallelism_type,
            num_temporal_layers: self.num_temporal_layers,
            temporal_id_nested: self.temporal_id_nested,
            length_size: self.length_size,
            arrays: self.arrays.deep_view(),
            raw: self.raw@,
        }
    }
}

impl DeepView for LhevcConfig {
    type V = LhevcModel;

    open spec fn deep_view(&self) -> LhevcModel {
        self@
    }
}

impl Clone for LhevcConfig {
    fn clone(&self) -> (r: Self)
        ensures
            r@ == self@,
    {
        LhevcConfig {
            configuration_version: self.configuration_version,
            min_spatial_segmentation_idc: self.min_spatial_segmentation_idc,
            parallelism_type: self.parallelism_type,
            num_temporal_layers: self.num_temporal_layers,
            temporal_id_nested: self.temporal_id_nested,
            length_size: self.length_size,
            arrays: clone_vec(&self.arrays),
            raw: copy_of(self.raw.as_slice()),
        }
    }
}

/// The record `b` holds.
pub open spec fn lhevc_config_of(b: Seq<u8>) -> core::result::Result<LhevcModel, ErrorKind> {
    if b.len() < 6 || b[0] != 1 {
        Err(ErrorKind::Invalid)
    } else {
        match nal_arrays_at(b, 6, b[5] as int, Seq::empty()) {
            Err(e) => Err(e),
            Ok((arrays, _)) => Ok(
                LhevcModel {
                    configuration_version: 1,
                    min_spatial_segmentation_idc: (be16(b, 1) % 0x1000) as u16,
                    parallelism_type: (b[3] % 4) as u8,
                    num_temporal_layers: (b[4] / 8 % 8) as u8,
                    temporal_id_nested: b[4] / 4 % 2 == 1,
                    length_size: (b[4] % 4 + 1) as u8,
                    arrays,
                    raw: b,
                },
            ),
        }
    }
}

/// The arrays a record can hold: at most 255, each with at most 65535 units.
pub open spec fn clipped_arrays(arrays: Seq<NalArrayModel>) -> Seq<NalArrayModel> {
    Seq::new(
        at_most(arrays, 255).len(),
        |i: int| NalArrayModel { nal_units: at_most(arrays[i].nal_units, 65535), ..arrays[i] },
    )
}

/// Every NAL unit of every array, in order.
pub open spec fn all_units(arrays: Seq<NalArrayModel>) -> Seq<Seq<u8>>
    decreases arrays.len(),
{
    if arrays.len() == 0 {
        Seq::empty()
    } else {
        all_units(arrays.drop_last()) + arrays.last().nal_units
    }
}

impl LhevcModel {
    /// The byte of layer count, nesting flag and length size.
    pub open spec fn layers_byte(self) -> u8 {
        (self.num_temporal_layers % 8 * 8 + bit(self.temporal_id_nested) * 4 + clamped_length_code(
            self.length_size,
        )) as u8
    }

    /// The record of these fields.
    pub open spec fn bytes(self) -> Seq<u8> {
        (Seq::<u8>::empty().push(1u8) + enc16(
            (0xf000 + self.min_spatial_segmentation_idc % 0x1000) as u16,
        )).push((0xfc + self.parallelism_type % 4) as u8).push(self.layers_byte()).push(
            at_most(self.arrays, 255).len() as u8,
        ) + nal_arrays_bytes(clipped_arrays(self.arrays))
    }

    /// Whether every field fits its bits.
    pub open spec fn fits(self) -> bool {
        &&& self.configuration_version == 1
        &&& self.min_spatial_segmentation_idc < 0x1000
        &&& self.parallelism_type < 4
        &&& self.num_temporal_layers < 8
        &&& 1 <= self.length_size <= 4
        &&& arrays_fit(self.arrays)
    }
}

impl LhevcConfig {
    /// Parse an `lhvC` record body.
    pub fn parse(b: &[u8]) -> (res: Result<Self>)
        ensures
            outcome(res) == lhevc_config_of(b@),
    {
        let mut r: Reader = Reader::new(b);
        let configuration_version: u8 = r.u8("lhvC configurationVersion")?;
        if configuration_version != 1 {
            let v: String = decimal(configuration_version as u64);
            return Err(
                HeifError::invalid(
                    concat(&["lhvC configurationVersion ", v.as_str(), " (shall be 1)"]),
                ),
            );
        }
        let seg: u16 = r.u16("lhvC min_spatial_segmentation_idc")?;
        let par: u8 = r.u8("lhvC parallelismType")?;
        let t: u8 = r.u8("lhvC numTemporalLayers")?;
        let n: u8 = r.u8("lhvC numOfArrays")?;
        let arrays: Vec<NalArray> = read_nal_arrays(&mut r, n as usize)?;
        Ok(
            Self {
                configuration_version,
                min_spatial_segmentation_idc: seg % 0x1000,
                parallelism_type: par % 4,
                num_temporal_layers: t / 8 % 8,
                temporal_id_nested: t / 4 % 2 == 1,
                length_size: t % 4 + 1,
                arrays,
                raw: copy_of(b),
            },
        )
    }

    /// Serialize to record bytes.
    pub fn serialize(&self) -> (v: Vec<u8>)
        ensures
            v@ == self@.bytes(),
    {
        let mut v: Vec<u8> = Vec::new();
        v.push(1);
        put16(&mut v, 0xf000 + self.min_spatial_segmentation_idc % 0x1000);
        v.push(0xfc + self.parallelism_type % 4);
        let nested: u8 = if self.temporal_id_nested {
            4
        } else {
            0
        };
        let code: u8 = if self.length_size == 0 {
            0
        } else if self.length_size > 4 {
            3
        } else {
            self.length_size - 1
        };
        v.push(self.num_temporal_layers % 8 * 8 + nested + code);
        let n: usize = if self.arrays.len() <= 255 {
            self.arrays.len()
        } else {
            255
        };
        v.push(n as u8);
        let ghost all = clipped_arrays(self@.arrays);
        let ghost start = v@;
        proof {
            assert(all.skip(0) =~= all);
        }
        for k in 0..n
            invariant
                n == all.len(),
                n <= self.arrays@.len(),
                all == clipped_arrays(self@.arrays),
                v@ + nal_arrays_bytes(all.skip(k as int)) =~= start + nal_arrays_bytes(all),
        {
            let a: &NalArray = &self.arrays[k];
            let ghost m = all[k as int];
            let ghost here = v@;
            proof {
                assert(self@.arrays[k as int] == a@);
                assert(all.skip(k as int)[0] == m);
                assert(all.skip(k as int).drop_first() =~= all.skip(k as int + 1));
            }
            put_array_type(&mut v, a);
            let c: usize = if a.nal_units.len() <= 65535 {
                a.nal_units.len()
            } else {
                65535
            };
            proof {
                assert(lists(a.nal_units@).take(c as int) =~= m.nal_units);
            }
            put16(&mut v, c as u16);
            put_nal_list(&mut v, &a.nal_units, c);
            proof {
                assert(v@ =~= here + crate::hvcc::nal_array_bytes(m));
            }
        }
        proof {
            assert(nal_arrays_bytes(all.skip(all.len() as int)) =~= Seq::empty());
            assert(v@ =~= start + nal_arrays_bytes(all));
        }
        v
    }

    /// Every NAL unit of every array, in record order.
    pub fn nal_units(&self) -> (r: Vec<&[u8]>)
        ensures
            views(r@) == all_units(self@.arrays),
    {
        let ghost all = self@.arrays;
        let mut out: Vec<&[u8]> = Vec::new();
        proof {
            assert(all.take(0) =~= Seq::empty());
            assert(views(out@) =~= Seq::empty());
        }
        for i in 0..self.arrays.len()
            invariant
                all == self@.arrays,
                views(out@) == all_units(all.take(i as int)),
        {
            proof {
                assert(all.take(i + 1).drop_last() =~= all.take(i as int));
            }
            let a: &NalArray = &self.arrays[i];
            let ghost before = views(out@);
            let ghost units = a@.nal_units;
            for j in 0..a.nal_units.len()
                invariant
                    units == lists(a.nal_units@),
                    views(out@) =~= before + units.take(j as int),
            {
                let ghost prior = views(out@);
                out.push(a.nal_units[j].as_slice());
                proof {
                    assert(views(out@) =~= prior.push(units[j as int]));
                }
            }
            proof {
                assert(units.take(units.len() as int) =~= units);
            }
        }
        proof {
            assert(all.take(all.len() as int) =~= all);
        }
        out
    }
}

/// One profile / tier / level entry of an `oinf` record.
#[derive(Clone, Copy, Debug, PartialEq, Eq)]
pub struct OperatingPointPtl {
    /// `general_profile_space`.
    pub profile_space: u8,
    /// `general_tier_flag`.
    pub tier_flag: bool,
    /// `general_profile_idc`.
    pub profile_idc: u8,
    /// `general_profile_compatibility_flags`.
    pub profile_compatibility_flags: u32,
    /// `general_constraint_indicator_flags` (48 bits).
    pub constraint_indicator_flags: u64,
    /// `general_level_idc`.
    pub level_idc: u8,
}

/// One layer of an operating point.
#[derive(Clone, Copy, Debug, PartialEq, Eq)]
pub struct OperatingPointLayer {
    /// `ptl_idx` (1-based into the PTL list; 0 = none).
    pub ptl_idx: u8,
    /// `layer_id` (`nuh_layer_id`).
    pub layer_id: u8,
    /// `is_outputlayer`.
    pub is_output_layer: bool,
    /// `is_alternate_outputlayer`.
    pub is_alternate_output_layer: bool,
}

/// One operating point of an `oinf` record.
#[derive(Debug, PartialEq, Eq)]
pub struct OperatingPoint {
    /// `output_layer_set_idx`.
    pub output_layer_set_idx: u16,
    /// `max_temporal_id`.
    pub max_temporal_id: u8,
    /// The layers.
    pub layers: Vec<OperatingPointLayer>,
    /// `minPicWidth` / `minPicHeight`.
    pub min_pic_size: (u16, u16),
    /// `maxPicWidth` / `maxPicHeight`.
    pub max_pic_size: (u16, u16),
    /// `maxChromaFormat`.
    pub max_chroma_format: u8,
    /// `maxBitDepthMinus8`.
    pub max_bit_depth_minus8: u8,
    /// `avgFrameRate` / `constantFrameRate` when `frame_rate_info_flag`.
    pub frame_rate: Option<(u16, u8)>,
    /// `maxBitRate` / `avgBitRate` when `bit_rate_info_flag`.
    pub bit_rate: Option<(u32, u32)>,
}

/// Model of [`OperatingPoint`].
#[verifier::ext_equal]
pub struct OperatingPointModel {
    /// `output_layer_set_idx`.
    pub output_layer_set_idx: u16,
    /// `max_temporal_id`.
    pub max_temporal_id: u8,
    /// The layers.
    pub layers: Seq<OperatingPointLayer>,
    /// `minPicWidth` / `minPicHeight`.
    pub min_pic_size: (u16, u16),
    /// `maxPicWidth` / `maxPicHeight`.
    pub max_pic_size: (u16, u16),
    /// `maxChromaFormat`.
    pub max_chroma_format: u8,
    /// `maxBitDepthMinus8`.
    pub max_bit_depth_minus8: u8,
    /// `avgFrameRate` / `constantFrameRate` when `frame_rate_info_flag`.
    pub frame_rate: Option<(u16, u8)>,
    /// `maxBitRate` / `avgBitRate` when `bit_rate_info_flag`.
    pub bit_rate: Option<(u32, u32)>,
}

impl View for OperatingPoint {
    type V = OperatingPointModel;

    open spec fn view(&self) -> OperatingPointModel {
        OperatingPointModel {
            output_layer_set_idx: self.output_layer_set_idx,
            max_temporal_id: self.max_temporal_id,
            layers: self.layers@,
            min_pic_size: self.min_pic_size,
            max_pic_size: self.max_pic_size,
            max_chroma_format: self.max_chroma_format,
            max_bit_depth_minus8: self.max_bit_depth_minus8,
            frame_rate: self.frame_rate,
            bit_rate: self.bit_rate,
        }
    }
}

impl DeepView for OperatingPoint {
    type V = OperatingPointModel;

    open spec fn deep_view(&self) -> OperatingPointModel {
        self@
    }
}

impl Clone for OperatingPoint {
    fn clone(&self) -> (r: Self)
        ensures
            r@ == self@,
    {
        OperatingPoint {
            output_layer_set_idx: self.output_layer_set_idx,
            max_temporal_id: self.max_temporal_id,
            layers: copy_vec(&self.layers),
            min_pic_size: self.min_pic_size,
            max_pic_size: self.max_pic_size,
            max_chroma_format: self.max_chroma_format,
            max_bit_depth_minus8: self.max_bit_depth_minus8,
            frame_rate: self.frame_rate,
            bit_rate: self.bit_rate,
        }
    }
}

/// One layer's dependency entry of an `oinf` record.
#[derive(Debug, PartialEq, Eq)]
pub struct LayerDependency {
    /// `layerID`.
    pub layer_id: u8,
    /// `direct_ref_layerID[]`.
    pub direct_ref_layer_ids: Vec<u8>,
    /// `dimension_identifier[j]` for every set bit `j` of `scalability_mask`.
    pub dimension_identifiers: Vec<(u8, u8)>,
}

/// Model of [`LayerDependency`].
#[verifier::ext_equal]
pub struct LayerDependencyModel {
    /// `layerID`.
    pub layer_id: u8,
    /// `direct_ref_layerID[]`.
    pub direct_ref_layer_ids: Seq<u8>,
    /// `dimension_identifier[j]` for every set bit `j` of `scalability_mask`.
    pub dimension_identifiers: Seq<(u8, u8)>,
}

impl View for LayerDependency {
    type V = LayerDependencyModel;

    open spec fn view(&self) -> LayerDependencyModel {
        LayerDependencyModel {
            layer_id: self.layer_id,
            direct_ref_layer_ids: self.direct_ref_layer_ids@,
            dimension_identifiers: self.dimension_identifiers@,
        }
    }
}

impl DeepView for LayerDependency {
    type V = LayerDependencyModel;

    open spec fn deep_view(&self) -> LayerDependencyModel {
        self@
    }
}

impl Clone for LayerDependency {
    fn clone(&self) -> (r: Self)
        ensures
            r@ == self@,
    {
        LayerDependency {
            layer_id: self.layer_id,
            direct_ref_layer_ids: copy_of(self.direct_ref_layer_ids.as_slice()),
            dimension_identifiers: copy_vec(&self.dimension_identifiers),
        }
    }
}

/// Parsed `OperatingPointsRecord` (`oinf`).
#[derive(Debug, PartialEq, Eq)]
pub struct OperatingPoints {
    /// `scalability_mask`.
    pub scalability_mask: u16,
    /// The PTL list (`ptl_idx` is 1-based into it).
    pub ptls: Vec<OperatingPointPtl>,
    /// The operating points.
    pub operating_points: Vec<OperatingPoint>,
    /// Per-layer dependency information.
    pub layers: Vec<LayerDependency>,
    /// The record bytes as parsed.
    pub raw: Vec<u8>,
}

/// Model of [`OperatingPoints`].
#[verifier::ext_equal]
pub struct OperatingPointsModel {
    /// `scalability_mask`.
    pub scalability_mask: u16,
    /// The PTL list (`ptl_idx` is 1-based into it).
    pub ptls: Seq<OperatingPointPtl>,
    /// The operating points.
    pub operating_points: Seq<OperatingPointModel>,
    /// Per-layer dependency information.
    pub layers: Seq<LayerDependencyModel>,
    /// The record bytes as parsed.
    pub raw: Seq<u8>,
}

impl View for OperatingPoints {
    type V = OperatingPointsModel;

    open spec fn view(&self) -> OperatingPointsModel {
        OperatingPointsModel {
            scalability_mask: self.scalability_mask,
            ptls: self.ptls@,
            operating_points: self.operating_points.deep_view(),
            layers: self.layers.deep_view(),
            raw: self.raw@,
        }
    }
}

impl DeepView for OperatingPoints {
    type V = OperatingPointsModel;

    open spec fn deep_view(&self) -> OperatingPointsModel {
        self@
    }
}

impl Clone for OperatingPoints {
    fn clone(&self) -> (r: Self)
        ensures
            r@ == self@,
    {
        OperatingPoints {
            scalability_mask: self.scalability_mask,
            ptls: copy_vec(&self.ptls),
            operating_points: clone_vec(&self.operating_points),
            layers: clone_vec(&self.layers),
            raw: copy_of(self.raw.as_slice()),
        }
    }
}

/// The profile / tier / level entry at `p`.
pub open spec fn ptl_at(b: Seq<u8>, p: int) -> OperatingPointPtl {
    OperatingPointPtl {
        profile_space: b[p] / 64,
        tier_flag: b[p] / 32 % 2 == 1,
        profile_idc: (b[p] % 32) as u8,
        profile_compatibility_flags: be32(b, p + 1),
        constraint_indicator_flags: (be16(b, p + 5) * 0x1_0000_0000 + be32(b, p + 7)) as u64,
        level_idc: b[p + 11],
    }
}

/// The layer entry at `p`.
pub open spec fn layer_at(b: Seq<u8>, p: int) -> OperatingPointLayer {
    OperatingPointLayer {
        ptl_idx: b[p],
        layer_id: b[p + 1] / 4,
        is_output_layer: b[p + 1] / 2 % 2 == 1,
        is_alternate_output_layer: b[p + 1] % 2 == 1,
    }
}

/// The operating point at `p` and the offset behind it: identifiers, layers,
/// picture sizes, formats, and the rates its flags announce.
#[verifier::opaque]
pub open spec fn operating_point_at(b: Seq<u8>, p: int) -> core::result::Result<
    (OperatingPointModel, int),
    ErrorKind,
> {
    let q = p + 4 + 2 * b[p + 3];
    let f = b[q + 8];
    let rate = if f / 2 % 2 == 1 {
        q + 12
    } else {
        q + 9
    };
    let end = if f % 2 == 1 {
        rate + 8
    } else {
        rate
    };
    if p + 4 > b.len() || q + 9 > b.len() || end > b.len() {
        Err(ErrorKind::Invalid)
    } else {
        Ok(
            (
                OperatingPointModel {
                    output_layer_set_idx: be16(b, p),
                    max_temporal_id: b[p + 2],
                    layers: Seq::new(b[p + 3] as nat, |i: int| layer_at(b, p + 4 + 2 * i)),
                    min_pic_size: (be16(b, q), be16(b, q + 2)),
                    max_pic_size: (be16(b, q + 4), be16(b, q + 6)),
                    max_chroma_format: f / 64,
                    max_bit_depth_minus8: (f / 8 % 8) as u8,
                    frame_rate: if f / 2 % 2 == 1 {
                        Some((be16(b, q + 9), (b[q + 11] % 4) as u8))
                    } else {
                        None
                    },
                    bit_rate: if f % 2 == 1 {
                        Some((be32(b, rate), be32(b, rate + 4)))
                    } else {
                        None
                    },
                },
                end,
            ),
        )
    }
}

/// `n` operating points from `p` on, after those in `acc`.
pub open spec fn operating_points_at(
    b: Seq<u8>,
    p: int,
    n: int,
    acc: Seq<OperatingPointModel>,
) -> core::result::Result<(Seq<OperatingPointModel>, int), ErrorKind>
    decreases n,
{
    if n <= 0 {
        Ok((acc, p))
    } else {
        match operating_point_at(b, p) {
            Err(e) => Err(e),
            Ok((op, end)) => operating_points_at(b, end, n - 1, acc.push(op)),
        }
    }
}

/// Whether bit `j` of the mask is set.
pub open spec fn mask_bit(mask: u16, j: int) -> bool {
    mask & (1u16 << (j as u16)) != 0
}

/// The identifiers of the set mask bits from `j` on, one byte each, after those
/// in `acc`.
pub open spec fn dimensions_at(
    b: Seq<u8>,
    p: int,
    mask: u16,
    j: int,
    acc: Seq<(u8, u8)>,
) -> core::result::Result<(Seq<(u8, u8)>, int), ErrorKind>
    decreases 16 - j,
{
    if j >= 16 {
        Ok((acc, p))
    } else if mask_bit(mask, j) {
        if p + 1 > b.len() {
            Err(ErrorKind::Invalid)
        } else {
            dimensions_at(b, p + 1, mask, j + 1, acc.push((j as u8, b[p])))
        }
    } else {
        dimensions_at(b, p, mask, j + 1, acc)
    }
}

/// The layer dependency at `p` and the offset behind it.
pub open spec fn dependency_at(b: Seq<u8>, p: int, mask: u16) -> core::result::Result<
    (LayerDependencyModel, int),
    ErrorKind,
> {
    if p + 2 > b.len() || p + 2 + b[p + 1] > b.len() {
        Err(ErrorKind::Invalid)
    } else {
        match dimensions_at(b, p + 2 + b[p + 1], mask, 0, Seq::empty()) {
            Err(e) => Err(e),
            Ok((dims, end)) => Ok(
                (
                    LayerDependencyModel {
                        layer_id: b[p],
                        direct_ref_layer_ids: b.subrange(p + 2, p + 2 + b[p + 1]),
                        dimension_identifiers: dims,
                    },
                    end,
                ),
            ),
        }
    }
}

/// `n` layer dependencies from `p` on, after those in `acc`.
pub open spec fn dependencies_at(
    b: Seq<u8>,
    p: int,
    mask: u16,
    n: int,
    acc: Seq<LayerDependencyModel>,
) -> core::result::Result<(Seq<LayerDependencyModel>, int), ErrorKind>
    decreases n,
{
    if n <= 0 {
        Ok((acc, p))
    } else {
        match dependency_at(b, p, mask) {
            Err(e) => Err(e),
            Ok((d, end)) => dependencies_at(b, end, mask, n - 1, acc.push(d)),
        }
    }
}

/// The record `b` holds.
pub open spec fn operating_points_of(b: Seq<u8>) -> core::result::Result<
    OperatingPointsModel,
    ErrorKind,
> {
    let n_ptl = (b[2] % 64) as int;
    let q = 3 + 12 * n_ptl;
    if b.len() < 3 || q + 2 > b.len() || be16(b, q) > (b.len() - (q + 2)) / 12 {
        Err(ErrorKind::Invalid)
    } else {
        match operating_points_at(b, q + 2, be16(b, q) as int, Seq::empty()) {
            Err(e) => Err(e),
            Ok((ops, p)) => if p + 1 > b.len() {
                Err(ErrorKind::Invalid)
            } else {
                match dependencies_at(b, p + 1, be16(b, 0), b[p] as int, Seq::empty()) {
                    Err(e) => Err(e),
                    Ok((layers, _)) => Ok(
                        OperatingPointsModel {
                            scalability_mask: be16(b, 0),
                            ptls: Seq::new(n_ptl as nat, |i: int| ptl_at(b, 3 + 12 * i)),
                            operating_points: ops,
                            layers,
                            raw: b,
                        },
                    ),
                }
            },
        }
    }
}

fn read_operating_point(r: &mut Reader) -> (res: Result<OperatingPoint>)
    requires
        old(r).wf(),
    ensures
        final(r).wf(),
        final(r).data() == old(r).data(),
        match res {
            Ok(v) => operating_point_at(old(r).data(), old(r).at()) == Ok::<
                (OperatingPointModel, int),
                ErrorKind,
            >((v@, final(r).at())),
            Err(e) => operating_point_at(old(r).data(), old(r).at()) == Err::<
                (OperatingPointModel, int),
                ErrorKind,
            >(e.kind()),
        },
{
    proof {
        reveal(operating_point_at);
    }
    let ghost b = r.data();
    let ghost p = r.at();
    let output_layer_set_idx: u16 = r.u16("oinf output_layer_set_idx")?;
    let max_temporal_id: u8 = r.u8("oinf max_temporal_id")?;
    let layer_count: u8 = r.u8("oinf layer_count")?;
    let mut layers: Vec<OperatingPointLayer> = Vec::new();
    let mut i: u8 = 0;
    while i < layer_count
        invariant
            i <= layer_count,
            r.wf(),
            b == old(r).data(),
            p == old(r).at(),
            r.data() == b,
            0 <= p,
            p + 4 <= b.len(),
            layer_count == b[p + 3],
            r.at() == p + 4 + 2 * i,
            layers@.len() == i,
            forall|k: int| 0 <= k < i ==> layers@[k] == layer_at(b, p + 4 + 2 * k),
        decreases layer_count - i,
    {
        proof {
            reveal(operating_point_at);
        }
        let ptl_idx: u8 = r.u8("oinf ptl_idx")?;
        let l: u8 = r.u8("oinf layer_id")?;
        layers.push(
            OperatingPointLayer {
                ptl_idx,
                layer_id: l / 4,
                is_output_layer: l / 2 % 2 == 1,
                is_alternate_output_layer: l % 2 == 1,
            },
        );
        i = i + 1;
    }
    proof {
        assert(layers@ =~= Seq::new(b[p + 3] as nat, |i: int| layer_at(b, p + 4 + 2 * i)));
    }
    let w0: u16 = r.u16("oinf minPicWidth")?;
    let h0: u16 = r.u16("oinf minPicHeight")?;
    let w1: u16 = r.u16("oinf maxPicWidth")?;
    let h1: u16 = r.u16("oinf maxPicHeight")?;
    let f: u8 = r.u8("oinf maxChromaFormat")?;
    let frame_rate: Option<(u16, u8)> = if f / 2 % 2 == 1 {
        let avg: u16 = r.u16("oinf avgFrameRate")?;
        let c: u8 = r.u8("oinf constantFrameRate")?;
        Some((avg, c % 4))
    } else {
        None
    };
    let bit_rate: Option<(u32, u32)> = if f % 2 == 1 {
        let max: u32 = r.u32("oinf maxBitRate")?;
        let avg: u32 = r.u32("oinf avgBitRate")?;
        Some((max, avg))
    } else {
        None
    };
    Ok(
        OperatingPoint {
            output_layer_set_idx,
            max_temporal_id,
            layers,
            min_pic_size: (w0, h0),
            max_pic_size: (w1, h1),
            max_chroma_format: f / 64,
            max_bit_depth_minus8: f / 8 % 8,
            frame_rate,
            bit_rate,
        },
    )
}

fn read_dependency(r: &mut Reader, mask: u16) -> (res: Result<LayerDependency>)
    requires
        old(r).wf(),
    ensures
        final(r).wf(),
        final(r).data() == old(r).data(),
        match res {
            Ok(v) => dependency_at(old(r).data(), old(r).at(), mask) == Ok::<
                (LayerDependencyModel, int),
                ErrorKind,
            >((v@, final(r).at())),
            Err(e) => dependency_at(old(r).data(), old(r).at(), mask) == Err::<
                (LayerDependencyModel, int),
                ErrorKind,
            >(e.kind()),
        },
{
    let ghost b = r.data();
    let ghost p = r.at();
    let layer_id: u8 = r.u8("oinf layerID")?;
    let n_ref: u8 = r.u8("oinf num_direct_ref_layers")?;
    let refs: &[u8] = r.bytes(n_ref as usize, "oinf direct_ref_layerID")?;
    let mut dims: Vec<(u8, u8)> = Vec::new();
    let mut j: u8 = 0;
    let ghost goal = dimensions_at(b, r.at(), mask, 0, Seq::empty());
    while j < 16
        invariant
            j <= 16,
            r.wf(),
            r.data() == b,
            b == old(r).data(),
            p == old(r).at(),
            0 <= p,
            p + 2 <= b.len(),
            p + 2 + b[p + 1] <= b.len(),
            goal == dimensions_at(b, p + 2 + b[p + 1], mask, 0, Seq::empty()),
            goal == dimensions_at(b, r.at(), mask, j as int, dims@),
        decreases 16 - j,
    {
        if mask & (1u16 << (j as u16)) != 0 {
            let d: u8 = r.u8("oinf dimension_identifier")?;
            dims.push((j, d));
        }
        j = j + 1;
    }
    Ok(
        LayerDependency {
            layer_id,
            direct_ref_layer_ids: copy_of(refs),
            dimension_identifiers: dims,
        },
    )
}

/// One PTL entry.
pub open spec fn ptl_bytes(m: OperatingPointPtl) -> Seq<u8> {
    (Seq::<u8>::empty().push(
        (m.profile_space % 4 * 64 + bit(m.tier_flag) * 32 + m.profile_idc % 32) as u8,
    ) + enc32(m.profile_compatibility_flags) + enc16(
        (m.constraint_indicator_flags / 0x1_0000_0000 % 0x1_0000) as u16,
    ) + enc32((m.constraint_indicator_flags % 0x1_0000_0000) as u32)).push(m.level_idc)
}

/// The PTL entries one after the other.
pub open spec fn ptls_bytes(l: Seq<OperatingPointPtl>) -> Seq<u8>
    decreases l.len(),
{
    if l.len() == 0 {
        Seq::empty()
    } else {
        ptls_bytes(l.drop_last()) + ptl_bytes(l.last())
    }
}

/// The layer entries one after the other.
pub open spec fn layers_bytes(l: Seq<OperatingPointLayer>) -> Seq<u8>
    decreases l.len(),
{
    if l.len() == 0 {
        Seq::empty()
    } else {
        layers_bytes(l.drop_last()).push(l.last().ptl_idx).push(
            (l.last().layer_id % 64 * 4 + bit(l.last().is_output_layer) * 2 + bit(
                l.last().is_alternate_output_layer,
            )) as u8,
        )
    }
}

/// One operating point.
#[verifier::opaque]
pub open spec fn operating_point_bytes(op: OperatingPointModel) -> Seq<u8> {
    let l = at_most(op.layers, 255);
    let fixed = (enc16(op.output_layer_set_idx).push(op.max_temporal_id).push(l.len() as u8)
        + layers_bytes(l) + enc16(op.min_pic_size.0) + enc16(op.min_pic_size.1) + enc16(
        op.max_pic_size.0,
    ) + enc16(op.max_pic_size.1)).push(
        (op.max_chroma_format % 4 * 64 + op.max_bit_depth_minus8 % 8 * 8 + bit(
            op.frame_rate is Some,
        ) * 2 + bit(op.bit_rate is Some)) as u8,
    );
    let rated = match op.frame_rate {
        Some((avg, c)) => (fixed + enc16(avg)).push((c % 4) as u8),
        None => fixed,
    };
    match op.bit_rate {
        Some((max, avg)) => rated + enc32(max) + enc32(avg),
        None => rated,
    }
}

/// The operating points one after the other.
pub open spec fn operating_points_bytes(l: Seq<OperatingPointModel>) -> Seq<u8>
    decreases l.len(),
{
    if l.len() == 0 {
        Seq::empty()
    } else {
        operating_point_bytes(l[0]) + operating_points_bytes(l.drop_first())
    }
}

/// The identifier listed for dimension `j`, 0 when there is none.
pub open spec fn dimension_value(dims: Seq<(u8, u8)>, j: int) -> u8
    decreases dims.len(),
{
    if dims.len() == 0 {
        0
    } else if dims[0].0 == j {
        dims[0].1
    } else {
        dimension_value(dims.drop_first(), j)
    }
}

/// The identifiers of the set mask bits below `j`.
pub open spec fn dimension_bytes(dims: Seq<(u8, u8)>, mask: u16, j: int) -> Seq<u8>
    decreases j,
{
    if j <= 0 {
        Seq::empty()
    } else if mask_bit(mask, j - 1) {
        dimension_bytes(dims, mask, j - 1).push(dimension_value(dims, j - 1))
    } else {
        dimension_bytes(dims, mask, j - 1)
    }
}

/// One layer dependency.
pub open spec fn dependency_bytes(d: LayerDependencyModel, mask: u16) -> Seq<u8> {
    let refs = at_most(d.direct_ref_layer_ids, 255);
    Seq::<u8>::empty().push(d.layer_id).push(refs.len() as u8) + refs + dimension_bytes(
        d.dimension_identifiers,
        mask,
        16,
    )
}

/// The layer dependencies one after the other.
pub open spec fn dependencies_bytes(l: Seq<LayerDependencyModel>, mask: u16) -> Seq<u8>
    decreases l.len(),
{
    if l.len() == 0 {
        Seq::empty()
    } else {
        dependency_bytes(l[0], mask) + dependencies_bytes(l.drop_first(), mask)
    }
}

impl OperatingPointsModel {
    /// The record of these fields.
    pub open spec fn bytes(self) -> Seq<u8> {
        let ptls = at_most(self.ptls, 63);
        let ops = at_most(self.operating_points, 65535);
        let layers = at_most(self.layers, 255);
        (enc16(self.scalability_mask).push(ptls.len() as u8) + ptls_bytes(ptls) + enc16(
            ops.len() as u16,
        ) + operating_points_bytes(ops)).push(layers.len() as u8) + dependencies_bytes(
            layers,
            self.scalability_mask,
        )
    }

    /// The operating point of an output layer set, the first listed.
    pub open spec fn point(self, idx: u16) -> Option<OperatingPointModel> {
        first_point(self.operating_points, idx)
    }

    /// The layers an output layer set outputs.
    pub open spec fn outputs(self, idx: u16) -> Seq<u8> {
        match self.point(idx) {
            Some(op) => output_ids(op.layers),
            None => Seq::empty(),
        }
    }
}

/// The first operating point of output layer set `idx`.
pub open spec fn first_point(ops: Seq<OperatingPointModel>, idx: u16) -> Option<OperatingPointModel>
    decreases ops.len(),
{
    if ops.len() == 0 {
        None
    } else if ops[0].output_layer_set_idx == idx {
        Some(ops[0])
    } else {
        first_point(ops.drop_first(), idx)
    }
}

/// The ids of the output layers.
pub open spec fn output_ids(layers: Seq<OperatingPointLayer>) -> Seq<u8>
    decreases layers.len(),
{
    if layers.len() == 0 {
        Seq::empty()
    } else if layers.last().is_output_layer {
        output_ids(layers.drop_last()).push(layers.last().layer_id)
    } else {
        output_ids(layers.drop_last())
    }
}

fn put_operating_point(v: &mut Vec<u8>, op: &OperatingPoint)
    ensures
        final(v)@ == old(v)@ + operating_point_bytes(op@),
{
    proof {
        reveal(operating_point_bytes);
    }
    let mut o: Vec<u8> = Vec::new();
    put16(&mut o, op.output_layer_set_idx);
    proof {
        assert(Seq::<u8>::empty() + enc16(op.output_layer_set_idx) =~= enc16(
            op.output_layer_set_idx,
        ));
    }
    o.push(op.max_temporal_id);
    let n: usize = if op.layers.len() <= 255 {
        op.layers.len()
    } else {
        255
    };
    o.push(n as u8);
    let ghost head = o@;
    let ghost l = at_most(op@.layers, 255);
    proof {
        assert(l.take(0) =~= Seq::empty());
    }
    for i in 0..n
        invariant
            n == l.len(),
            n <= op.layers@.len(),
            l == at_most(op@.layers, 255),
            o@ =~= head + layers_bytes(l.take(i as int)),
    {
        let x: OperatingPointLayer = op.layers[i];
        proof {
            assert(l.take(i + 1).drop_last() =~= l.take(i as int));
        }
        o.push(x.ptl_idx);
        let a: u8 = if x.is_output_layer {
            2
        } else {
            0
        };
        let c: u8 = if x.is_alternate_output_layer {
            1
        } else {
            0
        };
        o.push(x.layer_id % 64 * 4 + a + c);
    }
    proof {
        assert(l.take(n as int) =~= l);
        assert(o@ == head + layers_bytes(l));
    }
    put16(&mut o, op.min_pic_size.0);
    put16(&mut o, op.min_pic_size.1);
    put16(&mut o, op.max_pic_size.0);
    put16(&mut o, op.max_pic_size.1);
    let fr: u8 = if op.frame_rate.is_some() {
        2
    } else {
        0
    };
    let br: u8 = if op.bit_rate.is_some() {
        1
    } else {
        0
    };
    o.push(op.max_chroma_format % 4 * 64 + op.max_bit_depth_minus8 % 8 * 8 + fr + br);
    if let Some((avg, c)) = op.frame_rate {
        put16(&mut o, avg);
        o.push(c % 4);
    }
    if let Some((max, avg)) = op.bit_rate {
        put32(&mut o, max);
        put32(&mut o, avg);
    }
    put(v, o.as_slice());
}

fn find_dimension(dims: &Vec<(u8, u8)>, j: u8) -> (d: u8)
    ensures
        d == dimension_value(dims@, j as int),
{
    let ghost all = dims@;
    proof {
        assert(all.skip(0) =~= all);
    }
    for i in 0..dims.len()
        invariant
            all == dims@,
            dimension_value(all, j as int) == dimension_value(all.skip(i as int), j as int),
    {
        proof {
            assert(all.skip(i as int)[0] == dims@[i as int]);
            assert(all.skip(i as int).drop_first() =~= all.skip(i as int + 1));
        }
        if dims[i].0 == j {
            return dims[i].1;
        }
    }
    0
}

fn put_dependency(v: &mut Vec<u8>, d: &LayerDependency, mask: u16)
    ensures
        final(v)@ == old(v)@ + dependency_bytes(d@, mask),
{
    let mut o: Vec<u8> = Vec::new();
    o.push(d.layer_id);
    let n: usize = if d.direct_ref_layer_ids.len() <= 255 {
        d.direct_ref_layer_ids.len()
    } else {
        255
    };
    o.push(n as u8);
    put(&mut o, span(d.direct_ref_layer_ids.as_slice(), 0, n));
    let ghost head = o@;
    proof {
        assert(d@.direct_ref_layer_ids.subrange(0, n as int) =~= at_most(
            d@.direct_ref_layer_ids,
            255,
        ));
        assert(head =~= head + dimension_bytes(d@.dimension_identifiers, mask, 0));
    }
    let mut j: u8 = 0;
    while j < 16
        invariant
            j <= 16,
            o@ =~= head + dimension_bytes(d@.dimension_identifiers, mask, j as int),
        decreases 16 - j,
    {
        if mask & (1u16 << (j as u16)) != 0 {
            o.push(find_dimension(&d.dimension_identifiers, j));
        }
        j = j + 1;
    }
    proof {
        assert(o@ == head + dimension_bytes(d@.dimension_identifiers, mask, 16));
    }
    put(v, o.as_slice());
}

impl OperatingPoints {
    /// Parse an `OperatingPointsRecord` (the body of the `oinf`
    /// ItemFullProperty after its version / flags).
    pub fn parse(b: &[u8]) -> (res: Result<Self>)
        ensures
            outcome(res) == operating_points_of(b@),
    {
        let mut r: Reader = Reader::new(b);
        let scalability_mask: u16 = r.u16("oinf scalability_mask")?;
        let n: u8 = r.u8("oinf num_profile_tier_level")?;
        let n_ptl: u8 = n % 64;
        let mut ptls: Vec<OperatingPointPtl> = Vec::new();
        let mut i: u8 = 0;
        while i < n_ptl
            invariant
                i <= n_ptl,
                r.wf(),
                r.data() == b@,
                b@.len() >= 3,
                n_ptl == b@[2] % 64,
                r.at() == 3 + 12 * i,
                ptls@.len() == i,
                forall|k: int| 0 <= k < i ==> ptls@[k] == ptl_at(b@, 3 + 12 * k),
            decreases n_ptl - i,
        {
            let b0: u8 = r.u8("oinf general_profile")?;
            let profile_compatibility_flags: u32 = r.u32(
                "oinf general_profile_compatibility_flags",
            )?;
            let hi: u16 = r.u16("oinf general_constraint_indicator_flags")?;
            let lo: u32 = r.u32("oinf general_constraint_indicator_flags")?;
            let level_idc: u8 = r.u8("oinf general_level_idc")?;
            ptls.push(
                OperatingPointPtl {
                    profile_space: b0 / 64,
                    tier_flag: b0 / 32 % 2 == 1,
                    profile_idc: b0 % 32,
                    profile_compatibility_flags,
                    constraint_indicator_flags: hi as u64 * 0x1_0000_0000 + lo as u64,
                    level_idc,
                },
            );
            i = i + 1;
        }
        proof {
            assert(ptls@ =~= Seq::new(n_ptl as nat, |i: int| ptl_at(b@, 3 + 12 * i)));
        }
        let ghost q = 3 + 12 * n_ptl;
        let n_ops: u16 = r.u16("oinf num_operating_points")?;
        if n_ops as usize > r.remaining() / 12 {
            return Err(HeifError::invalid("oinf num_operating_points exceeds the record"));
        }
        let mut operating_points: Vec<OperatingPoint> = Vec::new();
        let ghost goal = operating_points_at(b@, q + 2, n_ops as int, Seq::empty());
        proof {
            assert(operating_points.deep_view() =~= Seq::empty());
        }
        let mut i: u16 = 0;
        while i < n_ops
            invariant
                i <= n_ops,
                r.wf(),
                r.data() == b@,
                b@.len() >= 3,
                q == 3 + 12 * (b@[2] % 64),
                q + 2 <= b@.len(),
                n_ops == be16(b@, q),
                n_ops <= (b@.len() - (q + 2)) / 12,
                goal == operating_points_at(b@, q + 2, n_ops as int, Seq::empty()),
                goal == operating_points_at(b@, r.at(), n_ops - i, operating_points.deep_view()),
            decreases n_ops - i,
        {
            let op: OperatingPoint = read_operating_point(&mut r)?;
            let ghost before = operating_points.deep_view();
            operating_points.push(op);
            proof {
                assert(operating_points.deep_view() =~= before.push(op@));
            }
            i = i + 1;
        }
        let ghost p = r.at();
        let max_layer_count: u8 = r.u8("oinf max_layer_count")?;
        let mut layers: Vec<LayerDependency> = Vec::new();
        let ghost deps = dependencies_at(
            b@,
            p + 1,
            scalability_mask,
            max_layer_count as int,
            Seq::empty(),
        );
        proof {
            assert(layers.deep_view() =~= Seq::empty());
        }
        let mut i: u8 = 0;
        while i < max_layer_count
            invariant
                i <= max_layer_count,
                r.wf(),
                r.data() == b@,
                b@.len() >= 3,
                q == 3 + 12 * (b@[2] % 64),
                q + 2 <= b@.len(),
                n_ops == be16(b@, q),
                n_ops <= (b@.len() - (q + 2)) / 12,
                goal == operating_points_at(b@, q + 2, n_ops as int, Seq::empty()),
                goal == Ok::<(Seq<OperatingPointModel>, int), ErrorKind>(
                    (operating_points.deep_view(), p),
                ),
                0 <= p < b@.len(),
                max_layer_count == b@[p],
                scalability_mask == be16(b@, 0),
                deps == dependencies_at(
                    b@,
                    p + 1,
                    scalability_mask,
                    max_layer_count as int,
                    Seq::empty(),
                ),
                deps == dependencies_at(
                    b@,
                    r.at(),
                    scalability_mask,
                    max_layer_count - i,
                    layers.deep_view(),
                ),
            decreases max_layer_count - i,
        {
            let d: LayerDependency = read_dependency(&mut r, scalability_mask)?;
            let ghost before = layers.deep_view();
            layers.push(d);
            proof {
                assert(layers.deep_view() =~= before.push(d@));
            }
            i = i + 1;
        }
        Ok(Self { scalability_mask, ptls, operating_points, layers, raw: copy_of(b) })
    }

    /// Serialize to record bytes.
    pub fn serialize(&self) -> (v: Vec<u8>)
        ensures
            v@ == self@.bytes(),
    {
        let ghost m = self@;
        let ghost ptls = at_most(m.ptls, 63);
        let ghost ops = at_most(m.operating_points, 65535);
        let ghost deps = at_most(m.layers, 255);
        let mut v: Vec<u8> = Vec::new();
        put16(&mut v, self.scalability_mask);
        proof {
            assert(v@ =~= enc16(self.scalability_mask));
        }
        let n: usize = if self.ptls.len() <= 63 {
            self.ptls.len()
        } else {
            63
        };
        v.push(n as u8);
        let ghost head = v@;
        proof {
            assert(ptls.take(0) =~= Seq::empty());
        }
        for i in 0..n
            invariant
                n == ptls.len(),
                n <= self.ptls@.len(),
                ptls == at_most(self@.ptls, 63),
                v@ =~= head + ptls_bytes(ptls.take(i as int)),
        {
            let p: OperatingPointPtl = self.ptls[i];
            proof {
                assert(ptls.take(i + 1).drop_last() =~= ptls.take(i as int));
            }
            let mut o: Vec<u8> = Vec::new();
            let tier: u8 = if p.tier_flag {
                32
            } else {
                0
            };
            o.push(p.profile_space % 4 * 64 + tier + p.profile_idc % 32);
            put32(&mut o, p.profile_compatibility_flags);
            put16(&mut o, (p.constraint_indicator_flags / 0x1_0000_0000 % 0x1_0000) as u16);
            put32(&mut o, (p.constraint_indicator_flags % 0x1_0000_0000) as u32);
            o.push(p.level_idc);
            put(&mut v, o.as_slice());
            proof {
                lemma_assoc(head, ptls_bytes(ptls.take(i as int)), ptl_bytes(p));
            }
        }
        proof {
            assert(ptls.take(n as int) =~= ptls);
            assert(v@ == head + ptls_bytes(ptls));
        }
        let n: usize = if self.operating_points.len() <= 65535 {
            self.operating_points.len()
        } else {
            65535
        };
        put16(&mut v, n as u16);
        let ghost head = v@;
        proof {
            assert(ops.skip(0) =~= ops);
        }
        for i in 0..n
            invariant
                n == ops.len(),
                n <= self.operating_points@.len(),
                ops == at_most(self@.operating_points, 65535),
                v@ + operating_points_bytes(ops.skip(i as int)) =~= head + operating_points_bytes(
                    ops,
                ),
        {
            proof {
                assert(ops.skip(i as int)[0] == self.operating_points@[i as int]@);
                assert(ops.skip(i as int).drop_first() =~= ops.skip(i as int + 1));
            }
            put_operating_point(&mut v, &self.operating_points[i]);
        }
        proof {
            assert(operating_points_bytes(ops.skip(ops.len() as int)) =~= Seq::empty());
            assert(v@ =~= head + operating_points_bytes(ops));
        }
        let n: usize = if self.layers.len() <= 255 {
            self.layers.len()
        } else {
            255
        };
        v.push(n as u8);
        let ghost head = v@;
        proof {
            assert(deps.skip(0) =~= deps);
        }
        for i in 0..n
            invariant
                n == deps.len(),
                n <= self.layers@.len(),
                deps == at_most(self@.layers, 255),
                v@ + dependencies_bytes(deps.skip(i as int), self.scalability_mask) =~= head
                    + dependencies_bytes(deps, self.scalability_mask),
        {
            proof {
                assert(deps.skip(i as int)[0] == self.layers@[i as int]@);
                assert(deps.skip(i as int).drop_first() =~= deps.skip(i as int + 1));
            }
            put_dependency(&mut v, &self.layers[i], self.scalability_mask);
        }
        proof {
            assert(dependencies_bytes(deps.skip(deps.len() as int), self.scalability_mask)
                =~= Seq::empty());
            assert(v@ =~= head + dependencies_bytes(deps, self.scalability_mask));
        }
        v
    }

    /// The operating point for an output layer set index.
    pub fn operating_point(&self, output_layer_set_idx: u16) -> (r: Option<&OperatingPoint>)
        ensures
            match r {
                Some(op) => self@.point(output_layer_set_idx) == Some(op@),
                None => self@.point(output_layer_set_idx) is None,
            },
    {
        let ghost all = self@.operating_points;
        proof {
            assert(all.skip(0) =~= all);
        }
        for i in 0..self.operating_points.len()
            invariant
                all == self@.operating_points,
                first_point(all, output_layer_set_idx) == first_point(
                    all.skip(i as int),
                    output_layer_set_idx,
                ),
        {
            proof {
                assert(all.skip(i as int)[0] == self.operating_points@[i as int]@);
                assert(all.skip(i as int).drop_first() =~= all.skip(i as int + 1));
            }
            if self.operating_points[i].output_layer_set_idx == output_layer_set_idx {
                return Some(&self.operating_points[i]);
            }
        }
        None
    }

    /// The `nuh_layer_id`s output by an operating point.
    pub fn output_layers(&self, output_layer_set_idx: u16) -> (r: Vec<u8>)
        ensures
            r@ == self@.outputs(output_layer_set_idx),
    {
        let mut out: Vec<u8> = Vec::new();
        if let Some(op) = self.operating_point(output_layer_set_idx) {
            let ghost all = op.layers@;
            proof {
                assert(all.take(0) =~= Seq::empty());
            }
            for i in 0..op.layers.len()
                invariant
                    all == op.layers@,
                    out@ == output_ids(all.take(i as int)),
            {
                proof {
                    assert(all.take(i + 1).drop_last() =~= all.take(i as int));
                }
                if op.layers[i].is_output_layer {
                    out.push(op.layers[i].layer_id);
                }
            }
            proof {
                assert(all.take(all.len() as int) =~= all);
            }
        }
        out
    }
}

/// `nuh_layer_id` of a two-byte HEVC NAL unit header (H.265 §7.3.1.2:
/// `forbidden_zero_bit(1) nal_unit_type(6) nuh_layer_id(6)
/// nuh_temporal_id_plus1(3)`).
pub fn nuh_layer_id(nal: &[u8]) -> (r: Option<u8>)
    ensures
        r == layer_id_of(nal@),
{
    crate::hvcc::nal_layer_id(nal)
}

/// Parsing a serialized `lhvC` record whose fields fit their bits gives the
/// record back, with the bytes kept.
#[verifier::rlimit(50)]
pub proof fn law_lhevc_config_round_trip(c: LhevcModel)
    requires
        c.fits(),
    ensures
        lhevc_config_of(c.bytes()) == Ok::<LhevcModel, ErrorKind>(
            LhevcModel { raw: c.bytes(), ..c },
        ),
{
    let b = c.bytes();
    let seg = (0xf000 + c.min_spatial_segmentation_idc % 0x1000) as u16;
    let h = (Seq::<u8>::empty().push(1u8) + enc16(seg)).push(
        (0xfc + c.parallelism_type % 4) as u8,
    ).push(c.layers_byte()).push(c.arrays.len() as u8);
    assert(clipped_arrays(c.arrays) =~= c.arrays);
    crate::hvcc::lemma_nal_arrays(h, c.arrays, Seq::empty(), Seq::empty());
    assert(b + Seq::<u8>::empty() =~= b);
    assert(Seq::<NalArrayModel>::empty() + c.arrays =~= c.arrays);
    assert(h.len() == 6);
    assert(b[0] == 1 && b[1] == enc16(seg)[0] && b[2] == enc16(seg)[1] && b[3] == h[3] && b[4]
        == h[4] && b[5] == h[5]);
    let x = c.layers_byte();
    assert(x / 8 % 8 == c.num_temporal_layers && x / 4 % 2 == bit(c.temporal_id_nested) && x % 4
        == c.length_size - 1);
}

/// Whatever parses as a record serializes, and parses again to the same fields;
/// serializing those gives the same bytes.
#[verifier::rlimit(50)]
pub proof fn law_parsed_lhevc_record(b: Seq<u8>)
    ensures
        lhevc_config_of(b) matches Ok(c) ==> {
            let again = LhevcModel { raw: c.bytes(), ..c };
            &&& lhevc_config_of(c.bytes()) == Ok::<LhevcModel, ErrorKind>(again)
            &&& again.bytes() == c.bytes()
        },
{
    match lhevc_config_of(b) {
        Ok(c) => {
            crate::hvcc::lemma_read_arrays(b, 6, b[5] as int, Seq::empty());
            assert(c.fits());
            law_lhevc_config_round_trip(c);
        },
        Err(_) => {},
    }
}

} // verus!
