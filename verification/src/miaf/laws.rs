//! Laws of the MIAF checks: what it takes for a file to have no finding.
use crate::boxes::FourCc;
use crate::derived::{graph_of, GridDescriptor, NodeModel};
use crate::file::{first_header, FileModel};
use crate::meta::{reference, ItemInfoModel, MetaModel};
use crate::miaf::chain::{
    coding_findings, coding_of, depth_of, depths_differ, derivation_findings, first_coding, grid_findings,
    last_depth, order_findings, overlay_findings, pixel_sum, plain_identity, success, tile_findings,
};
use crate::miaf::{
    codec_findings, colour_findings, config_findings, file_findings, findings_of, icc_count, item_findings,
    items_findings, ladder, ladders_findings, metadata_findings, nclx_count, pixels_of, property_findings,
    reports, step_findings, storage_findings, thumbnail_findings, told, transform_findings,
    unknown_findings, auxiliary_findings, pixel_findings, primary_findings, Finding, MiafProfile, Refusals,
};
use crate::props::{
    first_nclx, item_properties, unknown_essential, urn_kind, AuxKind, ColrModel, ItemPropertiesModel,
    PropertyEntryModel, PropertyKind, PropertyModel,
};
use vstd::prelude::*;

verus! {

/// What a profile asks of the coding of an item, in the fields of its configuration. An
/// HEVC profile asks of an `hvc1` item level 6 (180) or below and the Main tier; the basic
/// one 8 bits and 4:2:0, the advanced one at most 10 bits and 4:2:0 or 4:2:2, the
/// extended one at most 10 bits. An AV1 profile asks of an `av01` item the Main profile
/// up to level index 13, or the High profile up to 16.
pub open spec fn coding_conforms(profile: MiafProfile, t: FourCc, p: ItemPropertiesModel) -> bool {
    &&& (profile == MiafProfile::HevcBasic || profile == MiafProfile::HevcAdvanced || profile
        == MiafProfile::HevcExtended) && t@ == seq![0x68u8, 0x76, 0x63, 0x31] ==> (p.first(
        PropertyKind::HvcC,
    ) matches Some(PropertyModel::HvcC(h)) && {
        &&& h.general_level_idc <= 180
        &&& !h.general_tier_flag
        &&& profile == MiafProfile::HevcBasic ==> {
            &&& h.bit_depth_luma_minus8 == 0
            &&& h.bit_depth_chroma_minus8 == 0
            &&& h.chroma_format_idc == 1
        }
        &&& profile == MiafProfile::HevcAdvanced ==> {
            &&& h.bit_depth_luma_minus8 <= 2
            &&& h.bit_depth_chroma_minus8 <= 2
            &&& h.chroma_format_idc == 1 || h.chroma_format_idc == 2
        }
        &&& profile == MiafProfile::HevcExtended ==> {
            &&& h.bit_depth_luma_minus8 <= 2
            &&& h.bit_depth_chroma_minus8 <= 2
        }
    })
    &&& (profile == MiafProfile::Av1Basic || profile == MiafProfile::Av1Advanced) && t@
        == seq![0x61u8, 0x76, 0x30, 0x31] ==> (p.first(PropertyKind::Av1C) matches Some(
        PropertyModel::Av1C(a),
    ) && {
        &&& profile == MiafProfile::Av1Basic ==> a.seq_profile == 0 && a.seq_level_idx_0 <= 13
        &&& profile == MiafProfile::Av1Advanced ==> a.seq_profile <= 1 && a.seq_level_idx_0 <= 16
    })
}

/// The types that the checks tell apart, by their letters.
proof fn lemma_types()
    ensures
        crate::meta::ITEM_TYPE_HVC1@ == seq![0x68u8, 0x76, 0x63, 0x31],
        crate::meta::ITEM_TYPE_AV01@ == seq![0x61u8, 0x76, 0x30, 0x31],
        crate::meta::ITEM_TYPE_IDEN@ == seq![0x69u8, 0x64, 0x65, 0x6e],
        crate::meta::ITEM_TYPE_GRID@ == seq![0x67u8, 0x72, 0x69, 0x64],
        crate::meta::ITEM_TYPE_IOVL@ == seq![0x69u8, 0x6f, 0x76, 0x6c],
{
    assert(crate::meta::ITEM_TYPE_HVC1@ =~= seq![0x68u8, 0x76, 0x63, 0x31]);
    assert(crate::meta::ITEM_TYPE_AV01@ =~= seq![0x61u8, 0x76, 0x30, 0x31]);
    assert(crate::meta::ITEM_TYPE_IDEN@ =~= seq![0x69u8, 0x64, 0x65, 0x6e]);
    assert(crate::meta::ITEM_TYPE_GRID@ =~= seq![0x67u8, 0x72, 0x69, 0x64]);
    assert(crate::meta::ITEM_TYPE_IOVL@ =~= seq![0x69u8, 0x6f, 0x76, 0x6c]);
}

/// Codes of the same letters are the same.
proof fn lemma_code(a: FourCc, b: FourCc)
    ensures
        a == b <==> a@ == b@,
{
    if a@ == b@ {
        assert(a =~= b);
    }
}

/// An item has no finding of its coding exactly when it is within the limits of the
/// profile.
pub proof fn law_coding_limits(profile: MiafProfile, t: FourCc, p: ItemPropertiesModel, id: u32)
    ensures
        codec_findings(profile, t, p, id).len() == 0 <==> coding_conforms(profile, t, p),
{
    lemma_types();
    lemma_code(t, crate::meta::ITEM_TYPE_HVC1);
    lemma_code(t, crate::meta::ITEM_TYPE_AV01);
}

/// The place of a transformation in the order that is permitted: `clap`, `irot`, `imir`; 0
/// for another.
pub open spec fn place(t: FourCc) -> int {
    if t@ == seq![0x63u8, 0x6c, 0x61, 0x70] {
        1
    } else if t@ == seq![0x69u8, 0x72, 0x6f, 0x74] {
        2
    } else if t@ == seq![0x69u8, 0x6d, 0x69, 0x72] {
        3
    } else {
        0
    }
}

proof fn lemma_place(t: FourCc)
    ensures
        place(t) == crate::miaf::rank_of(t),
{
    lemma_code(t, crate::tags::CLAP);
    lemma_code(t, crate::tags::IROT);
    lemma_code(t, crate::tags::IMIR);
    assert(crate::tags::CLAP@ =~= seq![0x63u8, 0x6c, 0x61, 0x70]);
    assert(crate::tags::IROT@ =~= seq![0x69u8, 0x72, 0x6f, 0x74]);
    assert(crate::tags::IMIR@ =~= seq![0x69u8, 0x6d, 0x69, 0x72]);
}

/// Transformations from the `i`-th on are of the permitted set, essential, each at most
/// once and in the permitted order, after place `last`.
pub open spec fn in_order(es: Seq<PropertyEntryModel>, i: int, last: int) -> bool {
    &&& forall|k: int|
        i <= k < es.len() ==> (#[trigger] es[k]).essential && place(es[k].property.box_type()) >= 1
            && place(es[k].property.box_type()) > last
    &&& forall|j: int, k: int|
        i <= j < k < es.len() ==> place((#[trigger] es[j]).property.box_type()) < place(
            (#[trigger] es[k]).property.box_type(),
        )
}

proof fn lemma_in_order(es: Seq<PropertyEntryModel>, i: int, last: int, id: u32)
    requires
        0 <= i,
    ensures
        transform_findings(es, i, last, id).len() == 0 <==> in_order(es, i, last),
    decreases es.len() - i,
{
    if i < es.len() {
        let rank = place(es[i].property.box_type());
        lemma_place(es[i].property.box_type());
        lemma_in_order(es, i + 1, rank, id);
        if rank >= 1 && es[i].essential && rank > last {
            if in_order(es, i + 1, rank) {
                assert(in_order(es, i, last));
            }
            if in_order(es, i, last) {
                assert(in_order(es, i + 1, rank));
            }
        } else {
            assert(!in_order(es, i, last)) by {
                let e = es[i];
            }
        }
    }
}

/// Transformations have no finding exactly when they are `clap`, `irot` and `imir`, in
/// this order and each at most once, and essential.
pub proof fn law_transformations(es: Seq<PropertyEntryModel>, id: u32)
    ensures
        transform_findings(es, 0, 0, id).len() == 0 <==> in_order(es, 0, 0),
{
    lemma_in_order(es, 0, 0, id);
}

/// Every decoder configuration is essential, and no other essential property is unknown.
pub open spec fn essential_conforms(es: Seq<PropertyEntryModel>) -> bool {
    &&& forall|k: int|
        0 <= k < es.len() && ((#[trigger] es[k]).property is HvcC || es[k].property is Av1C
            || es[k].property is LhvC || es[k].property is AvcC) ==> es[k].essential
    &&& forall|k: int|
        0 <= k < es.len() && (#[trigger] es[k]).essential ==> !(es[k].property is Unknown)
}

proof fn lemma_configs(es: Seq<PropertyEntryModel>, n: int, id: u32)
    requires
        0 <= n <= es.len(),
    ensures
        config_findings(es, n, id).len() == 0 <==> forall|k: int|
            0 <= k < n && ((#[trigger] es[k]).property is HvcC || es[k].property is Av1C
                || es[k].property is LhvC || es[k].property is AvcC) ==> es[k].essential,
    decreases n,
{
    if n > 0 {
        lemma_configs(es, n - 1, id);
        let e = es[n - 1];
    }
}

proof fn lemma_unknown(es: Seq<PropertyEntryModel>)
    ensures
        unknown_essential(es).len() == 0 <==> forall|k: int|
            0 <= k < es.len() && (#[trigger] es[k]).essential ==> !(es[k].property is Unknown),
    decreases es.len(),
{
    if es.len() > 0 {
        let front = es.drop_last();
        lemma_unknown(front);
        assert(forall|k: int| 0 <= k < front.len() ==> front[k] == #[trigger] es[k]);
        assert(es[es.len() - 1] == es.last());
        if unknown_essential(es).len() == 0 {
            assert forall|k: int| 0 <= k < es.len() && (#[trigger] es[k]).essential implies !(
            es[k].property is Unknown) by {
                if k < front.len() {
                    assert(front[k] == es[k]);
                }
            }
        }
    }
}

/// Colour information: at most two entries, not two of CICP and not two ICC profiles, and
/// CICP beside a profile leaves the primaries and the transfer to it (code point 2).
pub open spec fn colours_conform(cs: Seq<ColrModel>) -> bool {
    &&& cs.len() <= 2
    &&& cs.len() == 2 ==> {
        &&& !(cs[0] is Nclx && cs[1] is Nclx)
        &&& !(cs[0] is Icc && cs[1] is Icc)
        &&& forall|k: int|
            0 <= k < 2 && cs[1 - k] is Icc ==> ((#[trigger] cs[k]) matches ColrModel::Nclx {
                primaries,
                transfer,
                ..
            } ==> primaries == 2 && transfer == 2)
    }
}

#[verifier::rlimit(40)]
proof fn lemma_colours(p: ItemPropertiesModel, id: u32)
    ensures
        colour_findings(p, id).len() == 0 <==> colours_conform(p.colrs()),
{
    let cs = p.colrs();
    if cs.len() <= 2 {
        reveal_with_fuel(nclx_count, 4);
        reveal_with_fuel(icc_count, 4);
        reveal_with_fuel(first_nclx, 4);
        if cs.len() == 1 {
            assert(cs.drop_last() =~= Seq::empty());
        }
        if cs.len() == 2 {
            assert(cs.drop_last().drop_last() =~= Seq::empty());
            assert(cs.drop_last().last() == cs[0]);
            assert(cs.last() == cs[1]);
            assert(cs.drop_first()[0] == cs[1]);
            assert(cs.drop_first().drop_first() =~= Seq::empty());
            let (a, b) = (cs[0], cs[1]);
            assert(cs[1 - 0] == b && cs[1 - 1] == a);
            if colours_conform(cs) {
                assert(cs[0] is Nclx && cs[1] is Icc ==> crate::miaf::unspecified(first_nclx(cs)));
                assert(cs[1] is Nclx && cs[0] is Icc ==> crate::miaf::unspecified(first_nclx(cs)));
            }
        }
    }
}

proof fn lemma_metadata(m: MetaModel, ids: Seq<u32>, n: int)
    requires
        0 <= n <= ids.len(),
    ensures
        metadata_findings(m, ids, n).len() == 0 <==> forall|k: int|
            0 <= k < n ==> (m.location(#[trigger] ids[k]) matches Some(loc)
                ==> loc.construction_method == 0),
    decreases n,
{
    if n > 0 {
        lemma_metadata(m, ids, n - 1);
        let i = ids[n - 1];
    }
}

/// What is asked of the storage of an image item: a coded image is stored at an offset
/// in the file (method 0), a derived one there or in the item data (method 0 or 1);
/// under a codec profile in the same file; only an identity need not be stored; and an
/// image is not protected.
pub open spec fn storage_conforms(m: MetaModel, it: ItemInfoModel, profile: MiafProfile) -> bool {
    &&& it.protection_index == 0
    &&& match m.location(it.id) {
        Some(loc) => {
            &&& crate::meta::is_coded_type(it.item_type) ==> loc.construction_method == 0
            &&& crate::meta::is_derived_type(it.item_type) ==> loc.construction_method <= 1
            &&& profile != MiafProfile::Miaf ==> loc.data_reference_index == 0
        },
        None => it.item_type@ == seq![0x69u8, 0x64, 0x65, 0x6e],
    }
}

/// What is asked of the properties of an image item: a size; square pixels;
/// transformations in order; essential decoder configurations and no unknown essential
/// property; alpha with CICP in full range, and an auxiliary that is no thumbnail; colour
/// information that agrees; metadata stored in the file; and coding within the
/// limits of the profile.
pub open spec fn properties_conform(
    m: MetaModel,
    it: ItemInfoModel,
    p: ItemPropertiesModel,
    profile: MiafProfile,
) -> bool {
    &&& p.first(PropertyKind::Ispe) is Some
    &&& p.first(PropertyKind::Pasp) matches Some(PropertyModel::Pasp(x)) ==> x.h_spacing
        == x.v_spacing && x.h_spacing != 0
    &&& in_order(p.transformative(), 0, 0)
    &&& essential_conforms(p.entries)
    &&& p.first(PropertyKind::AuxC) matches Some(PropertyModel::AuxC(a)) ==> {
        &&& urn_kind(a.aux_type) == AuxKind::Alpha ==> (first_nclx(p.colrs()) matches Some(
            ColrModel::Nclx { full_range, .. },
        ) ==> full_range)
        &&& m.references_from(it.id, reference::AUXL).len() == 0 || m.references_from(
            it.id,
            reference::THMB,
        ).len() <= 1
    }
    &&& colours_conform(p.colrs())
    &&& forall|k: int|
        0 <= k < m.references_to(it.id, reference::CDSC).len() ==> (m.location(
            #[trigger] m.references_to(it.id, reference::CDSC)[k],
        ) matches Some(loc) ==> loc.construction_method == 0)
    &&& coding_conforms(profile, it.item_type, p)
}

/// What is asked of an image item.
pub open spec fn item_conforms(m: MetaModel, it: ItemInfoModel, profile: MiafProfile) -> bool {
    &&& storage_conforms(m, it, profile)
    &&& item_properties(m, it.id) matches Ok(p) && properties_conform(m, it, p, profile)
}

/// An image item has no finding exactly when its storage and its properties are as the
/// requirements ask.
#[verifier::rlimit(60)]
pub proof fn law_item_conforms(m: MetaModel, it: ItemInfoModel, profile: MiafProfile, refusal: Seq<char>)
    ensures
        item_findings(m, it, profile, refusal).len() == 0 <==> item_conforms(m, it, profile),
{
    assert(storage_findings(m, it, profile.shared()).len() == 0 <==> storage_conforms(
        m,
        it,
        profile,
    )) by {
        lemma_types();
        lemma_code(it.item_type, crate::meta::ITEM_TYPE_IDEN);
    }
    if let Ok(p) = item_properties(m, it.id) {
        lemma_properties(m, it, p, profile);
    }
}

#[verifier::rlimit(60)]
proof fn lemma_properties(m: MetaModel, it: ItemInfoModel, p: ItemPropertiesModel, profile: MiafProfile)
    ensures
        property_findings(m, it, p, profile).len() == 0 <==> properties_conform(m, it, p, profile),
{
    let id = it.id;
    let about = m.references_to(id, reference::CDSC);
    law_transformations(p.transformative(), id);
    lemma_configs(p.entries, p.entries.len() as int, id);
    lemma_unknown(p.entries);
    lemma_colours(p, id);
    lemma_metadata(m, about, about.len() as int);
    law_coding_limits(profile, it.item_type, p, id);
    assert(pixel_findings(p, id).len() == 0 <==> (p.first(PropertyKind::Pasp) matches Some(
        PropertyModel::Pasp(x),
    ) ==> x.h_spacing == x.v_spacing && x.h_spacing != 0));
    assert(auxiliary_findings(m, p, id).len() == 0 <==> (p.first(PropertyKind::AuxC) matches Some(
        PropertyModel::AuxC(a),
    ) ==> {
        &&& urn_kind(a.aux_type) == AuxKind::Alpha ==> (first_nclx(p.colrs()) matches Some(
            ColrModel::Nclx { full_range, .. },
        ) ==> full_range)
        &&& m.references_from(it.id, reference::AUXL).len() == 0 || m.references_from(
            it.id,
            reference::THMB,
        ).len() <= 1
    }));
    let types = unknown_essential(p.entries);
    assert(unknown_findings(types, types.len() as int, id).len() == types.len());
}

proof fn lemma_items(m: MetaModel, n: int, profile: MiafProfile, texts: Seq<Seq<char>>)
    requires
        0 <= n <= m.items.len(),
    ensures
        items_findings(m, n, profile, texts).len() == 0 <==> forall|i: int|
            0 <= i < n && (#[trigger] m.items[i]).image() ==> item_conforms(m, m.items[i], profile),
    decreases n,
{
    if n > 0 {
        lemma_items(m, n - 1, profile, texts);
        law_item_conforms(m, m.items[n - 1], profile, texts[n - 1]);
    }
}

/// The thumbnails of an image and the image itself, by their pixel counts, grow by a
/// factor of at most 200 from one to the next.
pub open spec fn ladder_conforms(m: MetaModel, id: u32) -> bool {
    let thumbs = m.references_to(id, reference::THMB);
    let n = thumbs.len() as int;
    let s = ladder(m, thumbs, n).push(pixels_of(m, id) as u64);
    forall|k: int| 0 <= k < n && #[trigger] s[k] > 0 ==> s[k + 1] <= 200 * s[k]
}

proof fn lemma_steps(s: Seq<u64>, n: int, id: u32)
    requires
        0 <= n < s.len(),
    ensures
        step_findings(s, n, id).len() == 0 <==> forall|k: int|
            0 <= k < n && #[trigger] s[k] > 0 ==> s[k + 1] <= 200 * s[k],
    decreases n,
{
    if n > 0 {
        lemma_steps(s, n - 1, id);
        let v = s[n - 1];
    }
}

/// The thumbnails of an image have no finding exactly when no step between them is larger
/// than a factor of 200.
pub proof fn law_thumbnail_ladder(m: MetaModel, id: u32)
    ensures
        thumbnail_findings(m, id).len() == 0 <==> ladder_conforms(m, id),
{
    let thumbs = m.references_to(id, reference::THMB);
    let n = thumbs.len() as int;
    crate::miaf::lemma_ladder_len(m, thumbs, n);
    let s = ladder(m, thumbs, n).push(pixels_of(m, id) as u64);
    if n > 0 {
        lemma_steps(s, n, id);
    }
}

proof fn lemma_ladders(m: MetaModel, n: int)
    requires
        0 <= n <= m.items.len(),
    ensures
        ladders_findings(m, n).len() == 0 <==> forall|i: int|
            0 <= i < n && (#[trigger] m.items[i]).image() ==> ladder_conforms(m, m.items[i].id),
    decreases n,
{
    if n > 0 {
        lemma_ladders(m, n - 1);
        law_thumbnail_ladder(m, m.items[n - 1].id);
    }
}

/// What is asked of the file: the brand `mif1`, and `msf1` beside a movie; a handler box
/// first in the `meta` box, of the type `pict`; and no XML box in it.
pub open spec fn file_conforms(f: FileModel, m: MetaModel) -> bool {
    &&& f.file_type.has([0x6d, 0x69, 0x66, 0x31])
    &&& first_header(f.top_level, [0x6d, 0x6f, 0x6f, 0x76]) is Some ==> f.file_type.has(
        [0x6d, 0x73, 0x66, 0x31],
    )
    &&& m.child_box_types.len() > 0
    &&& m.child_box_types[0]@ == seq![0x68u8, 0x64, 0x6c, 0x72]
    &&& m.handler matches Some(h) && h.handler_type@ == seq![0x70u8, 0x69, 0x63, 0x74]
    &&& forall|i: int|
        0 <= i < m.child_box_types.len() ==> (#[trigger] m.child_box_types[i])@
            != seq![0x78u8, 0x6d, 0x6c, 0x20] && m.child_box_types[i]@
            != seq![0x62u8, 0x78, 0x6d, 0x6c]
}

proof fn lemma_file(f: FileModel, m: MetaModel)
    ensures
        file_findings(f, m).len() == 0 <==> file_conforms(f, m),
{
    assert(crate::ftyp::BRAND_MIF1 =~= [0x6du8, 0x69, 0x66, 0x31]);
    assert(crate::ftyp::BRAND_MSF1 =~= [0x6du8, 0x73, 0x66, 0x31]);
    assert(crate::tags::MOOV =~= [0x6du8, 0x6f, 0x6f, 0x76]);
    assert(crate::tags::HDLR@ =~= seq![0x68u8, 0x64, 0x6c, 0x72]);
    assert(crate::tags::PICT@ =~= seq![0x70u8, 0x69, 0x63, 0x74]);
    assert(crate::tags::XML@ =~= seq![0x78u8, 0x6d, 0x6c, 0x20]);
    assert(crate::tags::BXML@ =~= seq![0x62u8, 0x78, 0x6d, 0x6c]);
    lemma_code(m.child_box_types[0], crate::tags::HDLR);
    if let Some(h) = m.handler {
        lemma_code(h.handler_type, crate::tags::PICT);
    }
    assert forall|i: int| 0 <= i < m.child_box_types.len() implies (
    (#[trigger] m.child_box_types[i]) == crate::tags::XML <==> m.child_box_types[i]@
        == seq![0x78u8, 0x6d, 0x6c, 0x20]) && (m.child_box_types[i] == crate::tags::BXML
        <==> m.child_box_types[i]@ == seq![0x62u8, 0x78, 0x6d, 0x6c]) by {
        lemma_code(m.child_box_types[i], crate::tags::XML);
        lemma_code(m.child_box_types[i], crate::tags::BXML);
    }
}

/// What is asked of a file under a profile.
pub open spec fn conforms(f: FileModel, profile: MiafProfile) -> bool {
    f.meta matches Some(m) && f.primary() matches Some(p) && {
        &&& file_conforms(f, m)
        &&& p.image()
        &&& p.flags % 2 == 0
        &&& m.references_from(p.id, reference::THMB).len() == 0
        &&& m.references_from(p.id, reference::AUXL).len() == 0
        &&& forall|i: int|
            0 <= i < m.items.len() && (#[trigger] m.items[i]).image() ==> item_conforms(
                m,
                m.items[i],
                profile,
            ) && ladder_conforms(m, m.items[i].id)
        &&& graph_of(f, p.id) matches Ok(root) && derivation_findings(
            root,
            profile != MiafProfile::Miaf,
        ).len() == 0
    }
}

/// A report is empty exactly when the file is as the requirements of the profile ask.
#[verifier::rlimit(60)]
pub proof fn law_conformant_file(f: FileModel, profile: MiafProfile, rep: Seq<Finding>)
    requires
        reports(f, profile, rep),
    ensures
        rep.len() == 0 <==> conforms(f, profile),
{
    let t = choose|t: Refusals| #[trigger] told(f, t) && rep == findings_of(f, profile, t);
    if let Some(m) = f.meta {
        lemma_file(f, m);
        if let Some(p) = f.primary() {
            if p.image() {
                let n = m.items.len() as int;
                lemma_items(m, n, profile, t.properties);
                lemma_ladders(m, n);
                assert(primary_findings(m, p).len() == 0 <==> (p.flags % 2 == 0
                    && m.references_from(p.id, reference::THMB).len() == 0 && m.references_from(
                    p.id,
                    reference::AUXL,
                ).len() == 0));
                let a = items_findings(m, n, profile, t.properties).len() == 0;
                let b = ladders_findings(m, n).len() == 0;
                if conforms(f, profile) {
                    assert(a && b);
                }
            }
        }
    }
}

/// A report under an HEVC profile without findings: every `hvc1` item of the file has a
/// configuration of the Main tier and of level 6 (180) or below; under the basic profile of
/// exactly 8 bits and 4:2:0, under the advanced one of at most 10 bits and 4:2:0 or
/// 4:2:2, under the extended one of at most 10 bits.
pub proof fn law_conformant_hevc(f: FileModel, profile: MiafProfile, rep: Seq<Finding>, i: int)
    requires
        reports(f, profile, rep),
        rep.len() == 0,
        profile == MiafProfile::HevcBasic || profile == MiafProfile::HevcAdvanced || profile
            == MiafProfile::HevcExtended,
        f.meta matches Some(m) && 0 <= i < m.items.len() && m.items[i].item_type@
            == seq![0x68u8, 0x76, 0x63, 0x31],
    ensures
        item_properties(f.meta->0, f.meta->0.items[i].id) matches Ok(p) && p.first(
            PropertyKind::HvcC,
        ) matches Some(PropertyModel::HvcC(h)) && {
            let (luma, chroma) = (8 + h.bit_depth_luma_minus8, 8 + h.bit_depth_chroma_minus8);
            &&& h.general_level_idc <= 180
            &&& !h.general_tier_flag
            &&& profile == MiafProfile::HevcBasic ==> luma == 8 && chroma == 8 && h.chroma_format_idc
                == 1
            &&& profile == MiafProfile::HevcAdvanced ==> luma <= 10 && chroma <= 10 && (
            h.chroma_format_idc == 1 || h.chroma_format_idc == 2)
            &&& profile == MiafProfile::HevcExtended ==> luma <= 10 && chroma <= 10
        },
{
    law_conformant_file(f, profile, rep);
    lemma_types();
    let m = f.meta->0;
    lemma_code(m.items[i].item_type, crate::meta::ITEM_TYPE_HVC1);
    assert(m.items[i].image());
    assert(item_conforms(m, m.items[i], profile));
}

/// The chain of item types from the `i`-th on is in order below `stage`: no identity of
/// an identity; an overlay only above every grid and once; a grid once.
pub open spec fn chain_conforms(chain: Seq<FourCc>, i: int, stage: int, after: bool) -> bool {
    let iden = seq![0x69u8, 0x64, 0x65, 0x6e];
    let grid = seq![0x67u8, 0x72, 0x69, 0x64];
    let iovl = seq![0x69u8, 0x6f, 0x76, 0x6c];
    &&& forall|k: int|
        i <= k < chain.len() && (#[trigger] chain[k])@ == iden ==> if k == i {
            !after
        } else {
            chain[k - 1]@ != iden
        }
    &&& forall|k: int|
        i <= k < chain.len() ==> ((#[trigger] chain[k])@ == iovl ==> stage == 0) && (chain[k]@ == grid
            ==> stage <= 1)
    &&& forall|j: int, k: int|
        i <= j < k < chain.len() ==> ((#[trigger] chain[k])@ == iovl ==> (#[trigger] chain[j])@ != iovl
            && chain[j]@ != grid) && (chain[k]@ == grid ==> chain[j]@ != grid)
}

#[verifier::rlimit(60)]
proof fn lemma_chain(chain: Seq<FourCc>, i: int, stage: int, after: bool, id: u32)
    requires
        0 <= i,
        0 <= stage <= 2,
    ensures
        order_findings(chain, i, stage, after, id).len() == 0 <==> chain_conforms(
            chain,
            i,
            stage,
            after,
        ),
    decreases chain.len() - i,
{
    if i < chain.len() {
        let t = chain[i];
        lemma_types();
        lemma_code(t, crate::meta::ITEM_TYPE_IDEN);
        lemma_code(t, crate::meta::ITEM_TYPE_GRID);
        lemma_code(t, crate::meta::ITEM_TYPE_IOVL);
        let iden = seq![0x69u8, 0x64, 0x65, 0x6e];
        let grid = seq![0x67u8, 0x72, 0x69, 0x64];
        let iovl = seq![0x69u8, 0x6f, 0x76, 0x6c];
        assert(iden[1] != iovl[1] && iden[0] != grid[0] && iovl[0] != grid[0]);
        let next: int = if t@ == iovl {
            1
        } else if t@ == grid {
            2
        } else {
            stage
        };
        lemma_chain(chain, i + 1, next, t@ == iden, id);
        let (now, rest) = (
            chain_conforms(chain, i, stage, after),
            chain_conforms(chain, i + 1, next, t@ == iden),
        );
        let ok = (t@ == iovl ==> stage == 0) && (t@ == grid ==> stage <= 1) && (t@ == iden ==> !after);
        if now {
            assert(ok);
            assert(rest) by {
                assert forall|k: int| i + 1 <= k < chain.len() implies ((#[trigger] chain[k])@ == iovl
                    ==> next == 0) && (chain[k]@ == grid ==> next <= 1) by {
                    assert(chain[i]@ == t@);
                }
                assert forall|k: int|
                    i + 1 <= k < chain.len() && (#[trigger] chain[k])@ == iden implies if k == i + 1 {
                    !(t@ == iden)
                } else {
                    chain[k - 1]@ != iden
                } by {
                    if k == i + 1 {
                        assert(chain[k - 1] == t);
                    }
                }
            }
        }
        if ok && rest {
            assert(now) by {
                assert forall|k: int| i <= k < chain.len() implies ((#[trigger] chain[k])@ == iovl
                    ==> stage == 0) && (chain[k]@ == grid ==> stage <= 1) by {}
                assert forall|j: int, k: int| i <= j < k < chain.len() implies ((
                #[trigger] chain[k])@ == iovl ==> (#[trigger] chain[j])@ != iovl && chain[j]@ != grid)
                    && (chain[k]@ == grid ==> chain[j]@ != grid) by {}
                assert forall|k: int|
                    i <= k < chain.len() && (#[trigger] chain[k])@ == iden implies if k == i {
                    !after
                } else {
                    chain[k - 1]@ != iden
                } by {
                    if k == i + 1 {
                        assert(chain[k - 1] == t);
                    }
                }
            }
        }
    }
}

/// A derivation chain has no finding exactly when, from the top, an overlay comes before
/// every grid, each occurs at most once, and no identity is derived from an identity.
pub proof fn law_chain_order(chain: Seq<FourCc>, id: u32)
    ensures
        order_findings(chain, 0, 0, false, id).len() == 0 <==> chain_conforms(chain, 0, 0, false),
{
    lemma_chain(chain, 0, 0, false, id);
}

/// Two inputs that have a coding have the same: type and configuration.
pub open spec fn coded_alike(a: NodeModel, b: NodeModel) -> bool {
    coding_of(a) is Some && coding_of(b) is Some ==> coding_of(a)->0.item_type == coding_of(
        b,
    )->0.item_type && coding_of(a)->0.raw == coding_of(b)->0.raw
}

proof fn lemma_first_coding(tiles: Seq<NodeModel>, n: int) -> (j: int)
    requires
        0 <= n <= tiles.len(),
    ensures
        first_coding(tiles, n) is Some ==> 0 <= j < n && coding_of(tiles[j]) == first_coding(tiles, n),
        first_coding(tiles, n) is None ==> forall|k: int|
            0 <= k < n ==> coding_of(#[trigger] tiles[k]) is None,
    decreases n,
{
    if n > 0 {
        let j = lemma_first_coding(tiles, n - 1);
        if first_coding(tiles, n - 1) is Some {
            j
        } else {
            n - 1
        }
    } else {
        0
    }
}

proof fn lemma_codings(tiles: Seq<NodeModel>, n: int, id: u32)
    requires
        0 <= n <= tiles.len(),
    ensures
        coding_findings(tiles, n, id).len() == 0 <==> forall|j: int, k: int|
            0 <= j < k < n ==> #[trigger] coded_alike(tiles[j], tiles[k]),
    decreases n,
{
    if n > 0 {
        lemma_codings(tiles, n - 1, id);
        let f = lemma_first_coding(tiles, n - 1);
        let first = first_coding(tiles, n - 1);
        let last = coding_of(tiles[n - 1]);
        let before = forall|j: int, k: int|
            0 <= j < k < n - 1 ==> #[trigger] coded_alike(tiles[j], tiles[k]);
        if first is Some && last is Some {
            let same = coded_alike(tiles[f], tiles[n - 1]);
            if before && same {
                assert forall|j: int, k: int| 0 <= j < k < n implies #[trigger] coded_alike(
                    tiles[j],
                    tiles[k],
                ) by {
                    if k == n - 1 && j != f {
                        if j < f {
                            assert(coded_alike(tiles[j], tiles[f]));
                        } else {
                            assert(coded_alike(tiles[f], tiles[j]));
                        }
                    }
                }
            }
        } else {
            if before {
                assert forall|j: int, k: int| 0 <= j < k < n implies #[trigger] coded_alike(
                    tiles[j],
                    tiles[k],
                ) by {
                    if k == n - 1 && first is None {
                        assert(coding_of(tiles[j]) is None);
                    }
                }
            }
        }
    }
}

proof fn lemma_tiles(tiles: Seq<NodeModel>, n: int, id: u32)
    requires
        0 <= n <= tiles.len(),
    ensures
        tile_findings(tiles, n, id).len() == 0 <==> forall|k: int|
            0 <= k < n ==> success(crate::derived::size_after(#[trigger] tiles[k])) == success(
                crate::derived::size_after(tiles[0]),
            ) && plain_identity(tiles[k]),
    decreases n,
{
    if n > 0 {
        lemma_tiles(tiles, n - 1, id);
        let t = tiles[n - 1];
    }
}

/// What is asked of a grid: tiles coded alike and of the same size; each edge of a tile at
/// least 64 pixels; even edges of tiles and canvas where chroma is halved; tiles that cover the
/// canvas; identities only of coded images; and under a codec profile at most 128
/// million pixels in all.
pub open spec fn grid_conforms(g: GridDescriptor, tiles: Seq<NodeModel>, shared: bool) -> bool {
    let n = tiles.len() as int;
    let chroma = match first_coding(tiles, n) {
        Some(c) => c.chroma as int,
        None => 1,
    };
    &&& forall|j: int, k: int| 0 <= j < k < n ==> #[trigger] coded_alike(tiles[j], tiles[k])
    &&& forall|k: int|
        0 <= k < n ==> success(crate::derived::size_after(#[trigger] tiles[k])) == success(
            crate::derived::size_after(tiles[0]),
        ) && plain_identity(tiles[k])
    &&& n > 0 ==> (crate::derived::size_after(tiles[0]) matches Ok(s) ==> {
        &&& s.0 >= 64 && s.1 >= 64
        &&& chroma == 1 || chroma == 2 ==> s.0 % 2 == 0 && g.output_width % 2 == 0
        &&& chroma == 1 ==> s.1 % 2 == 0 && g.output_height % 2 == 0
        &&& s.0 * g.columns >= g.output_width
        &&& s.1 * g.rows >= g.output_height
    })
    &&& shared ==> pixel_sum(tiles, n) <= 128_000_000
}

/// A grid has no finding exactly when it is as the requirements ask.
#[verifier::rlimit(40)]
pub proof fn law_grid_conforms(g: GridDescriptor, tiles: Seq<NodeModel>, shared: bool, id: u32)
    ensures
        grid_findings(g, tiles, shared, id).len() == 0 <==> grid_conforms(g, tiles, shared),
{
    let n = tiles.len() as int;
    lemma_codings(tiles, n, id);
    lemma_tiles(tiles, n, id);
}

/// Two inputs that have a bit depth have the same.
pub open spec fn as_deep(a: NodeModel, b: NodeModel) -> bool {
    depth_of(a.properties) is Some && depth_of(b.properties) is Some ==> depth_of(a.properties)
        == depth_of(b.properties)
}

proof fn lemma_last_depth(v: Seq<NodeModel>, n: int) -> (j: int)
    requires
        0 <= n <= v.len(),
    ensures
        last_depth(v, n) is Some ==> 0 <= j < n && depth_of(v[j].properties) == last_depth(v, n),
        last_depth(v, n) is None ==> forall|k: int|
            0 <= k < n ==> depth_of((#[trigger] v[k]).properties) is None,
    decreases n,
{
    if n > 0 {
        let j = lemma_last_depth(v, n - 1);
        if depth_of(v[n - 1].properties) is Some {
            n - 1
        } else {
            j
        }
    } else {
        0
    }
}

proof fn lemma_depths(v: Seq<NodeModel>, n: int)
    requires
        0 <= n <= v.len(),
    ensures
        !depths_differ(v, n) <==> forall|j: int, k: int|
            0 <= j < k < n ==> #[trigger] as_deep(v[j], v[k]),
    decreases n,
{
    if n > 0 {
        lemma_depths(v, n - 1);
        let f = lemma_last_depth(v, n - 1);
        let before = forall|j: int, k: int| 0 <= j < k < n - 1 ==> #[trigger] as_deep(v[j], v[k]);
        if last_depth(v, n - 1) is Some && depth_of(v[n - 1].properties) is Some {
            let same = as_deep(v[f], v[n - 1]);
            if before && same {
                assert forall|j: int, k: int| 0 <= j < k < n implies #[trigger] as_deep(
                    v[j],
                    v[k],
                ) by {
                    if k == n - 1 && j != f {
                        if j < f {
                            assert(as_deep(v[j], v[f]));
                        } else {
                            assert(as_deep(v[f], v[j]));
                        }
                    }
                }
            }
        } else if before {
            assert forall|j: int, k: int| 0 <= j < k < n implies #[trigger] as_deep(v[j], v[k]) by {
                if k == n - 1 && last_depth(v, n - 1) is None {
                    assert(depth_of(v[j].properties) is None);
                }
            }
        }
    }
}

/// An overlay has no finding exactly when its inputs are equally deep and have the same
/// explicit colour information, and under a codec profile at most 128 million
/// pixels in all.
pub proof fn law_overlay_conforms(v: Seq<NodeModel>, shared: bool, id: u32)
    ensures
        overlay_findings(v, shared, id).len() == 0 <==> {
            &&& forall|j: int, k: int| 0 <= j < k < v.len() ==> #[trigger] as_deep(v[j], v[k])
            &&& forall|i: int|
                0 < i < v.len() ==> first_nclx((#[trigger] v[i]).properties.colrs()) == first_nclx(
                    v[i - 1].properties.colrs(),
                )
            &&& shared ==> pixel_sum(v, v.len() as int) <= 128_000_000
        },
{
    lemma_depths(v, v.len() as int);
}

/// The brands that declare the profiles, by their letters; every profile but the plain
/// one adopts the shared constraints.
pub proof fn law_profile_brands(profile: MiafProfile)
    ensures
        profile.code()@ == (match profile {
            MiafProfile::Miaf => seq![0x6du8, 0x69, 0x61, 0x66],
            MiafProfile::HevcBasic => seq![0x4du8, 0x69, 0x48, 0x42],
            MiafProfile::HevcAdvanced => seq![0x4du8, 0x69, 0x48, 0x41],
            MiafProfile::HevcExtended => seq![0x4du8, 0x69, 0x48, 0x45],
            MiafProfile::AvcBasic => seq![0x4du8, 0x69, 0x41, 0x42],
            MiafProfile::Av1Basic => seq![0x4du8, 0x41, 0x31, 0x42],
            MiafProfile::Av1Advanced => seq![0x4du8, 0x41, 0x31, 0x41],
        }),
        profile.shared() <==> profile != MiafProfile::Miaf,
{
    assert(crate::ftyp::BRAND_MIAF@ =~= seq![0x6du8, 0x69, 0x61, 0x66]);
    assert(crate::ftyp::BRAND_MIHB@ =~= seq![0x4du8, 0x69, 0x48, 0x42]);
    assert(crate::ftyp::BRAND_MIHA@ =~= seq![0x4du8, 0x69, 0x48, 0x41]);
    assert(crate::ftyp::BRAND_MIHE@ =~= seq![0x4du8, 0x69, 0x48, 0x45]);
    assert(crate::ftyp::BRAND_MIAB@ =~= seq![0x4du8, 0x69, 0x41, 0x42]);
    assert(crate::ftyp::BRAND_MA1B@ =~= seq![0x4du8, 0x41, 0x31, 0x42]);
    assert(crate::ftyp::BRAND_MA1A@ =~= seq![0x4du8, 0x41, 0x31, 0x41]);
}

} // verus!
