//! Laws of the items that coded pictures become.
use crate::encode::annexb::{
    array_of, chroma_units, compat_flags, hevc_item_of, hevc_record, hevc_size, slice_units, typed_units,
    HevcSps, HevcUnitModel,
};
use crate::encode::av1::{plane_samples, request_of};
use crate::encode::EncodeOptions;
use crate::hvcc::joined;
use crate::image::{Chroma, Picture};
use crate::props::ColrModel;
use vstd::arithmetic::power2::{lemma2_to64, pow2};
use vstd::prelude::*;

verus! {

/// The size of an HEVC picture is the coded size without what the window cuts off on both
/// sides. The window counts chroma samples: two pixels across and down with 4:2:0, two
/// across with 4:2:2, one otherwise.
pub proof fn law_cropped_size(sps: HevcSps, w: u32, h: u32)
    ensures
        hevc_size(sps) == Some((w, h)) <==> {
            let (cx, cy) = (sps.left + sps.right, sps.top + sps.bottom);
            &&& w + cx + (if sps.chroma_format_idc == 1 || sps.chroma_format_idc == 2 {
                cx
            } else {
                0
            }) == sps.width
            &&& h + cy + (if sps.chroma_format_idc == 1 {
                cy
            } else {
                0
            }) == sps.height
        },
{
    let (ux, uy) = chroma_units(sps.chroma_format_idc as int);
    let (cx, cy) = (sps.left + sps.right, sps.top + sps.bottom);
    assert((ux == 1 ==> ux * cx == cx) && (ux == 2 ==> ux * cx == 2 * cx)) by (nonlinear_arith);
    assert((uy == 1 ==> uy * cy == cy) && (uy == 2 ==> uy * cy == 2 * cy)) by (nonlinear_arith);
}

/// A profile is compatible with itself; Main 10 with Main too, and Main Still Picture with
/// Main and Main 10.
pub proof fn law_compatible_profiles(p: u8)
    ensures
        p == 1 ==> compat_flags(p) == 0x4000_0000,
        p == 2 ==> compat_flags(p) == 0x6000_0000,
        p == 3 ==> compat_flags(p) == 0x7000_0000,
        p < 32 && !(1 <= p <= 3) ==> compat_flags(p) * pow2(p as nat) == 0x8000_0000,
        p >= 32 ==> compat_flags(p) == 0,
{
    lemma2_to64();
    if p < 32 {
        vstd::arithmetic::power2::lemma_pow2_adds((31 - p) as nat, p as nat);
    }
}

proof fn lemma_typed_units(units: Seq<HevcUnitModel>, t: u8, i: int)
    requires
        0 <= i < units.len(),
        units[i].nal_unit_type == t,
    ensures
        typed_units(units, t).contains(units[i].coded()),
    decreases units.len(),
{
    let rest = typed_units(units.drop_last(), t);
    if i == units.len() - 1 {
        assert(typed_units(units, t)[rest.len() as int] == units[i].coded());
    } else {
        lemma_typed_units(units.drop_last(), t, i);
        assert(units.drop_last()[i] == units[i]);
        let k = choose|k: int| 0 <= k < rest.len() && rest[k] == units[i].coded();
        assert(typed_units(units, t)[k] == units[i].coded());
    }
}

/// The record of a coded picture says what its sequence parameter set says, and holds
/// every video, sequence and picture parameter set, in this order, in an array of its type.
pub proof fn law_record_of_units(units: Seq<HevcUnitModel>, sps: HevcSps, i: int)
    requires
        0 <= i < units.len(),
        32 <= units[i].nal_unit_type <= 34,
    ensures
        ({
            let c = hevc_record(units, sps);
            &&& c.configuration_version == 1
            &&& c.length_size == 4
            &&& c.num_temporal_layers == 1
            &&& c.general_profile_space == sps.profile_space
            &&& c.general_tier_flag == sps.tier_flag
            &&& c.general_profile_idc == sps.profile_idc
            &&& c.general_level_idc == sps.level_idc
            &&& c.chroma_format_idc == sps.chroma_format_idc
            &&& c.bit_depth_luma_minus8 == sps.bit_depth_luma_minus8
            &&& c.bit_depth_chroma_minus8 == sps.bit_depth_chroma_minus8
            &&& exists|k: int|
                0 <= k < c.arrays.len() && #[trigger] c.arrays[k].nal_unit_type
                    == units[i].nal_unit_type && c.arrays[k].complete
                    && c.arrays[k].nal_units.contains(units[i].coded())
            &&& forall|j: int, k: int|
                0 <= j < k < c.arrays.len() ==> (#[trigger] c.arrays[j]).nal_unit_type < (
                #[trigger] c.arrays[k]).nal_unit_type
        }),
{
    let t = units[i].nal_unit_type;
    let c = hevc_record(units, sps);
    let (v, s, p) = (array_of(units, 32), array_of(units, 33), array_of(units, 34));
    lemma_typed_units(units, t, i);
    assert(c.arrays == v + s + p);
    let k: int = if t == 32 {
        0
    } else if t == 33 {
        v.len() as int
    } else {
        (v.len() + s.len()) as int
    };
    assert(array_of(units, t).len() == 1);
    assert(c.arrays[k] == array_of(units, t)[0]);
    assert(c.arrays[k].nal_unit_type == t && c.arrays[k].complete);
    assert forall|j: int| 0 <= j < c.arrays.len() implies (#[trigger] c.arrays[j]).nal_unit_type
        == (if j < v.len() {
        32
    } else if j < v.len() + s.len() {
        33int
    } else {
        34
    }) by {
        if j < v.len() {
            assert(c.arrays[j] == v[j]);
        } else if j < v.len() + s.len() {
            assert(c.arrays[j] == s[j - v.len()]);
        } else {
            assert(c.arrays[j] == p[j - v.len() - s.len()]);
        }
    }
}

proof fn lemma_slice_units(units: Seq<HevcUnitModel>, i: int)
    requires
        0 <= i < units.len(),
        units[i].nal_unit_type < 32,
    ensures
        slice_units(units).contains(units[i].coded()),
    decreases units.len(),
{
    let rest = slice_units(units.drop_last());
    if i == units.len() - 1 {
        assert(slice_units(units)[rest.len() as int] == units[i].coded());
    } else {
        lemma_slice_units(units.drop_last(), i);
        assert(units.drop_last()[i] == units[i]);
        let k = choose|k: int| 0 <= k < rest.len() && rest[k] == units[i].coded();
        assert(slice_units(units)[k] == units[i].coded());
    }
}

proof fn lemma_only_slices(units: Seq<HevcUnitModel>, k: int)
    requires
        0 <= k < slice_units(units).len(),
    ensures
        exists|i: int|
            0 <= i < units.len() && #[trigger] units[i].nal_unit_type < 32 && slice_units(units)[k]
                == units[i].coded(),
    decreases units.len(),
{
    let init = units.drop_last();
    let rest = slice_units(init);
    let n = units.len() - 1;
    if units.last().nal_unit_type < 32 && k == rest.len() {
        assert(units[n].nal_unit_type < 32);
    } else {
        lemma_only_slices(init, k);
        let i = choose|i: int|
            0 <= i < init.len() && #[trigger] init[i].nal_unit_type < 32 && rest[k]
                == init[i].coded();
        assert(units[i].nal_unit_type < 32);
    }
}

/// The data of an HEVC item are the coded slices of the access unit, all of them and
/// nothing else, each behind a length of four bytes.
pub proof fn law_slices_of_item(units: Seq<HevcUnitModel>, sps: HevcSps)
    ensures
        hevc_item_of(units, sps) matches Ok(item) ==> exists|s: Seq<Seq<u8>>|
            {
                &&& item.data == #[trigger] joined(s, 4)
                &&& forall|i: int|
                    0 <= i < units.len() && (#[trigger] units[i]).nal_unit_type < 32
                        ==> s.contains(units[i].coded())
                &&& forall|k: int|
                    0 <= k < s.len() ==> exists|i: int|
                        0 <= i < units.len() && #[trigger] units[i].nal_unit_type < 32
                            && #[trigger] s[k] == units[i].coded()
            },
{
    let s = slice_units(units);
    assert forall|i: int|
        0 <= i < units.len() && (#[trigger] units[i]).nal_unit_type < 32 implies s.contains(
        units[i].coded(),
    ) by {
        lemma_slice_units(units, i);
    }
    assert forall|k: int| 0 <= k < s.len() implies exists|i: int|
        0 <= i < units.len() && #[trigger] units[i].nal_unit_type < 32 && #[trigger] s[k]
            == units[i].coded() by {
        lemma_only_slices(units, k);
    }
    assert(joined(s, 4) == joined(s, 4));
}

/// The AV1 encoder is handed the picture's own samples, row after row: luma first, then
/// the two chroma planes of a picture that has them.
pub proof fn law_requested_samples(f: Picture, opts: EncodeOptions, p: int, x: int, y: int)
    requires
        0 <= p < 3,
        p == 0 || f.format.chroma != Chroma::Mono,
        0 <= x < f.dims(p).0,
        0 <= y < f.dims(p).1,
    ensures
        ({
            let q = request_of(f, opts);
            let s = if p == 0 {
                q.y
            } else if p == 1 {
                q.u
            } else {
                q.v
            };
            &&& s.len() == f.dims(p).0 * f.dims(p).1
            &&& s[y * f.dims(p).0 + x] == (f.at)(p, x, y)
            &&& q.width == f.width
            &&& q.height == f.height
            &&& q.bit_depth == f.format.bit_depth
            &&& q.chroma == f.format.chroma
        }),
{
    let (w, h) = (f.dims(p).0 as int, f.dims(p).1 as int);
    let i = y * w + x;
    assert(0 <= i < w * h) by (nonlinear_arith)
        requires
            i == y * w + x,
            0 <= x < w,
            0 <= y < h,
    ;
    vstd::arithmetic::div_mod::lemma_fundamental_div_mod_converse(i, w, y, x);
    assert(plane_samples(f, p)[i] == (f.at)(p, x, y));
}

/// A picture without chroma is coded without chroma planes. It is coded without loss
/// unless a quality below 100 is set, and with what an `nclx` colour description says;
/// another description leaves the full range and no code points.
pub proof fn law_requested_coding(f: Picture, opts: EncodeOptions)
    ensures
        ({
            let q = request_of(f, opts);
            &&& f.format.chroma == Chroma::Mono ==> q.u.len() == 0 && q.v.len() == 0
            &&& q.reduced_header
            &&& opts.av1_quality is None ==> q.quality == 100
            &&& opts.av1_quality matches Some(v) ==> q.quality <= v && q.quality <= 100 && (
            q.quality == v || q.quality == 100)
            &&& match opts.colr@ {
                ColrModel::Nclx { primaries, transfer, matrix, full_range } => q.full_range
                    == full_range && (primaries < 256 && transfer < 256 && matrix < 256
                    ==> q.color_description == Some(
                    (primaries as u8, transfer as u8, matrix as u8),
                )),
                _ => q.full_range && q.color_description is None,
            }
        }),
{
}

} // verus!
