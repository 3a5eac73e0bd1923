//! MIAF (ISO/IEC 23000-22) constraints as typed checks.
//!
//! [`check`] walks a parsed file and reports every violation of the
//! `miaf` brand's general requirements (§7) plus the shared conditions
//! (§8) and the codec constraints of the profile being checked
//! (Annex A). Checks are structural — they never decode pixels.
use crate::boxes::{fourcc_eq, fourcc_str, fourcc_text, FourCc};
use crate::derived::{build_graph, declared_size, graph_of};
use crate::error::{class_text, ErrorKind, Result};
use crate::file::{FileModel, HeifFile};
use crate::ftyp::{
    BRAND_MA1A, BRAND_MA1B, BRAND_MIAB, BRAND_MIAF, BRAND_MIF1, BRAND_MIHA, BRAND_MIHB, BRAND_MIHE, BRAND_MSF1,
};
use crate::hvcc::{chroma_text, HevcConfig};
use crate::av1c::Av1Config;
use crate::meta::{
    is_coded_type, is_derived_type, reference, ItemInfo, ItemInfoModel, Meta, MetaModel,
    ITEM_TYPE_AV01, ITEM_TYPE_HVC1, ITEM_TYPE_IDEN,
};
use crate::props::{
    colr_views, entry_views, first_nclx, item_properties, refusal_start, unknown_essential, urn_kind, AuxKind,
    Colr, ColrModel, ItemProperties, ItemPropertiesModel, Pasp, PropertyEntry, PropertyEntryModel,
    PropertyKind, PropertyModel,
};
use crate::tags;
use crate::text::{decimal, decimal_chars, text1, text2, text3, text4, text5, text7};
use vstd::prelude::*;

pub mod chain;
pub mod laws;
use chain::{check_derivations, derivation_findings};

verus! {

/// A MIAF profile (Annex A) or the plain `miaf` brand.
#[derive(Clone, Copy, Debug, PartialEq, Eq, Structural)]
pub enum MiafProfile {
    /// The `miaf` brand: §7 general requirements only.
    Miaf,
    /// `MiHB` — HEVC Main / Main Still Picture, 4:2:0 8-bit (A.3).
    HevcBasic,
    /// `MiHA` — adds Main 10 / Main Intra / Main 4:2:2 10 Intra (A.4).
    HevcAdvanced,
    /// `MiHE` — adds Main 4:4:4 (10) / Monochrome (10) (A.5).
    HevcExtended,
    /// `MiAB` — AVC Basic (A.6); AVC items are not decodable here.
    AvcBasic,
    /// `MA1B` — AV1 Basic (AVIF §7.2).
    Av1Basic,
    /// `MA1A` — AV1 Advanced (AVIF §7.3).
    Av1Advanced,
}

/// Every profile.
pub open spec fn all_profiles() -> Seq<MiafProfile> {
    seq![
        MiafProfile::Miaf,
        MiafProfile::HevcBasic,
        MiafProfile::HevcAdvanced,
        MiafProfile::HevcExtended,
        MiafProfile::AvcBasic,
        MiafProfile::Av1Basic,
        MiafProfile::Av1Advanced,
    ]
}

impl MiafProfile {
    /// The brand that declares a profile.
    pub open spec fn code(self) -> FourCc {
        match self {
            MiafProfile::Miaf => BRAND_MIAF,
            MiafProfile::HevcBasic => BRAND_MIHB,
            MiafProfile::HevcAdvanced => BRAND_MIHA,
            MiafProfile::HevcExtended => BRAND_MIHE,
            MiafProfile::AvcBasic => BRAND_MIAB,
            MiafProfile::Av1Basic => BRAND_MA1B,
            MiafProfile::Av1Advanced => BRAND_MA1A,
        }
    }

    /// The brand that declares this profile.
    pub fn brand(&self) -> (r: FourCc)
        ensures
            r == self.code(),
    {
        match self {
            MiafProfile::Miaf => BRAND_MIAF,
            MiafProfile::HevcBasic => BRAND_MIHB,
            MiafProfile::HevcAdvanced => BRAND_MIHA,
            MiafProfile::HevcExtended => BRAND_MIHE,
            MiafProfile::AvcBasic => BRAND_MIAB,
            MiafProfile::Av1Basic => BRAND_MA1B,
            MiafProfile::Av1Advanced => BRAND_MA1A,
        }
    }

    /// Every profile a file declares through its brands.
    pub fn declared_by(file: &HeifFile) -> (r: Vec<MiafProfile>)
        ensures
            r@ == all_profiles().filter(|p: MiafProfile| file@.file_type.has(p.code())),
    {
        let all: [MiafProfile; 7] = [
            MiafProfile::Miaf,
            MiafProfile::HevcBasic,
            MiafProfile::HevcAdvanced,
            MiafProfile::HevcExtended,
            MiafProfile::AvcBasic,
            MiafProfile::Av1Basic,
            MiafProfile::Av1Advanced,
        ];
        let ghost keep = |p: MiafProfile| file@.file_type.has(p.code());
        let mut out: Vec<MiafProfile> = Vec::new();
        proof {
            reveal(Seq::filter);
            assert(all@ =~= all_profiles());
            assert(all@.take(0) =~= Seq::empty());
            assert(out@ =~= all@.take(0).filter(keep));
        }
        for i in 0..7usize
            invariant
                all@.len() == 7,
                keep == (|p: MiafProfile| file@.file_type.has(p.code())),
                out@ == all@.take(i as int).filter(keep),
        {
            proof {
                reveal(Seq::filter);
                assert(all@.take(i + 1).drop_last() =~= all@.take(i as int));
                assert(all@.take(i + 1).last() == all@[i as int]);
            }
            if file.file_type.has_brand(&all[i].brand()) {
                out.push(all[i]);
            }
        }
        assert(all@.take(7) =~= all@);
        out
    }

    /// Whether a profile adopts the shared constraints.
    pub open spec fn shared(self) -> bool {
        self != MiafProfile::Miaf
    }

    /// `true` when the profile adopts the Annex A "shared constraints"
    /// (self-containment, single-layer, grid-limit, single-track,
    /// matched-duration).
    pub fn adopts_shared_constraints(&self) -> (r: bool)
        ensures
            r == self.shared(),
    {
        !matches!(self, MiafProfile::Miaf)
    }
}

/// One violated requirement.
#[derive(Clone, Debug, PartialEq, Eq)]
pub struct MiafViolation {
    /// The clause the requirement comes from (`"7.2.1.7"`, `"A.3.2"`, …).
    pub clause: &'static str,
    /// The item the violation concerns, when item-specific.
    pub item_id: Option<u32>,
    /// What went wrong.
    pub message: String,
}

/// Model of [`MiafViolation`].
pub struct Finding {
    /// The clause.
    pub clause: Seq<char>,
    /// The item.
    pub item_id: Option<u32>,
    /// The message.
    pub message: Seq<char>,
}

impl View for MiafViolation {
    type V = Finding;

    open spec fn view(&self) -> Finding {
        Finding { clause: self.clause@, item_id: self.item_id, message: self.message@ }
    }
}

/// Result of a MIAF check.
#[derive(Clone, Debug, PartialEq, Eq)]
pub struct MiafReport {
    /// The violations found, in discovery order.
    pub violations: Vec<MiafViolation>,
}

impl View for MiafReport {
    type V = Seq<Finding>;

    open spec fn view(&self) -> Seq<Finding> {
        Seq::new(self.violations@.len(), |i: int| self.violations@[i]@)
    }
}

impl Default for MiafReport {
    fn default() -> (r: Self)
        ensures
            r@ == Seq::<Finding>::empty(),
    {
        let r = MiafReport { violations: Vec::new() };
        assert(r@ =~= Seq::empty());
        r
    }
}

impl MiafReport {
    /// `true` when nothing was violated.
    pub fn is_conformant(&self) -> (r: bool)
        ensures
            r == (self@.len() == 0),
    {
        self.violations.len() == 0
    }

    pub(crate) fn push(&mut self, clause: &'static str, item_id: Option<u32>, message: String)
        ensures
            final(self)@ == old(self)@.push(Finding { clause: clause@, item_id, message: message@ }),
    {
        let ghost before = self@;
        let v = MiafViolation { clause, item_id, message };
        self.violations.push(v);
        assert(self@ =~= before.push(v@));
    }
}

/// The finding of a violated requirement, if it is violated.
pub open spec fn found(
    violated: bool,
    clause: &str,
    item_id: Option<u32>,
    message: Seq<char>,
) -> Seq<Finding> {
    if violated {
        seq![Finding { clause: clause@, item_id, message }]
    } else {
        Seq::empty()
    }
}

/// MIAF §8.4 grid-limit pixel budget.
pub const GRID_LIMIT_PIXELS: u64 = 128_000_000;

/// MIAF §7.3.3 / §8.4 maximum size factor between successive images.
pub const SIZE_FACTOR_LIMIT: u64 = 200;

/// MIAF §7.3.11.4.2 minimum tile edge.
pub const MIN_TILE_EDGE: u32 = 64;

/// What the storage of an image item violates: §7.2.1.7 construction methods,
/// self-containment, and §7.2.1.8 protection.
pub open spec fn storage_findings(m: MetaModel, it: ItemInfoModel, shared: bool) -> Seq<Finding> {
    let id = Some(it.id);
    (match m.location(it.id) {
        Some(loc) => found(
            is_coded_type(it.item_type) && loc.construction_method != 0,
            "7.2.1.7",
            id,
            "coded image item uses construction_method "@ + decimal_chars(
                loc.construction_method as nat,
            ),
        ) + found(
            is_derived_type(it.item_type) && loc.construction_method > 1,
            "7.2.1.7",
            id,
            "derived image item uses construction_method 2"@,
        ) + found(
            shared && loc.data_reference_index != 0,
            "8.2.1",
            id,
            "data_reference_index "@ + decimal_chars(loc.data_reference_index as nat)
                + " (shall be 0)"@,
        ),
        None => found(
            it.item_type != ITEM_TYPE_IDEN,
            "HEIF 6.2",
            id,
            "image item has no iloc entry"@,
        ),
    }) + found(
        it.protection_index != 0,
        "7.2.1.8",
        id,
        "MIAF image item references item protection"@,
    )
}

fn check_storage(rep: &mut MiafReport, meta: &Meta, it: &ItemInfo, profile: MiafProfile)
    ensures
        final(rep)@ == old(rep)@ + storage_findings(meta@, it@, profile.shared()),
{
    let ghost start = rep@;
    let id: u32 = it.id;
    match meta.location(id) {
        Some(loc) => {
            // §7.2.1.7 construction methods; §7.2.1.13 bodies in mdat.
            if it.is_coded_image() && loc.construction_method != 0 {
                let n: String = decimal(loc.construction_method as u64);
                rep.push(
                    "7.2.1.7",
                    Some(id),
                    text2("coded image item uses construction_method ", n.as_str()),
                );
            }
            if it.is_derived_image() && loc.construction_method > 1 {
                rep.push("7.2.1.7", Some(id), text1("derived image item uses construction_method 2"));
            }
            if profile.adopts_shared_constraints() && loc.data_reference_index != 0 {
                let n: String = decimal(loc.data_reference_index as u64);
                rep.push(
                    "8.2.1",
                    Some(id),
                    text3("data_reference_index ", n.as_str(), " (shall be 0)"),
                );
            }
        },
        None => {
            if !fourcc_eq(&it.item_type, &ITEM_TYPE_IDEN) {
                rep.push("HEIF 6.2", Some(id), text1("image item has no iloc entry"));
            }
        },
    }
    // §7.2.1.8: unprotected.
    if it.protection_index != 0 {
        rep.push("7.2.1.8", Some(id), text1("MIAF image item references item protection"));
    }
    assert(rep@ =~= start + storage_findings(meta@, it@, profile.shared()));
}

/// The place of a transformative property in the permitted order, 0 for one
/// outside the permitted set.
pub open spec fn rank_of(t: FourCc) -> int {
    if t == tags::CLAP {
        1
    } else if t == tags::IROT {
        2
    } else if t == tags::IMIR {
        3
    } else {
        0
    }
}

fn rank(t: &FourCc) -> (r: u8)
    ensures
        r == rank_of(*t),
{
    if fourcc_eq(t, &tags::CLAP) {
        1
    } else if fourcc_eq(t, &tags::IROT) {
        2
    } else if fourcc_eq(t, &tags::IMIR) {
        3
    } else {
        0
    }
}

/// What is said of a transformative property outside the permitted set.
pub open spec fn not_permitted(t: FourCc) -> Seq<char> {
    "transformative property '"@ + fourcc_text(t) + "' outside the permitted set"@
}

/// What is said of a transformative property that is not essential.
pub open spec fn not_essential(t: FourCc) -> Seq<char> {
    "transformative property '"@ + fourcc_text(t) + "' is not marked essential"@
}

/// What the transformative properties from the `i`-th on violate (§7.3.9):
/// they are `clap`, `irot`, `imir`, in this order, and essential. `last` is the
/// rank of the one before.
pub open spec fn transform_findings(
    es: Seq<PropertyEntryModel>,
    i: int,
    last: int,
    id: u32,
) -> Seq<Finding>
    decreases es.len() - i,
{
    if i >= es.len() {
        Seq::empty()
    } else {
        let rank = rank_of(es[i].property.box_type());
        if rank == 0 {
            found(true, "7.3.9", Some(id), not_permitted(es[i].property.box_type()))
                + transform_findings(es, i + 1, last, id)
        } else {
            found(
                !es[i].essential,
                "7.3.9",
                Some(id),
                not_essential(es[i].property.box_type()),
            ) + found(
                rank <= last,
                "7.3.6.7",
                Some(id),
                "transformative properties not in clap → irot → imir order"@,
            ) + transform_findings(es, i + 1, rank, id)
        }
    }
}

fn check_transforms(rep: &mut MiafReport, props: &ItemProperties, id: u32)
    ensures
        final(rep)@ == old(rep)@ + transform_findings(props@.transformative(), 0, 0, id),
{
    let ghost start = rep@;
    let ghost es = props@.transformative();
    let list: Vec<&PropertyEntry> = props.transformative();
    let ghost goal = transform_findings(es, 0, 0, id);
    let mut last: u8 = 0;
    let mut i: usize = 0;
    assert(start + goal =~= rep@ + transform_findings(es, 0, 0, id));
    while i < list.len()
        invariant
            i <= list@.len(),
            entry_views(list@) == es,
            start + goal == rep@ + transform_findings(es, i as int, last as int, id),
        decreases list@.len() - i,
    {
        let e: &PropertyEntry = list[i];
        let t: FourCc = e.property.box_type();
        let ghost before = rep@;
        let ghost was = last as int;
        proof {
            assert(es[i as int] == e@);
        }
        let k: u8 = rank(&t);
        if k == 0 {
            let name: String = fourcc_str(&t);
            rep.push(
                "7.3.9",
                Some(id),
                text3("transformative property '", name.as_str(), "' outside the permitted set"),
            );
            proof {
                let rest = transform_findings(es, i + 1, was, id);
                assert(before + (found(true, "7.3.9", Some(id), not_permitted(t)) + rest) =~= rep@
                    + rest);
            }
        } else {
            if !e.essential {
                let name: String = fourcc_str(&t);
                rep.push(
                    "7.3.9",
                    Some(id),
                    text3("transformative property '", name.as_str(), "' is not marked essential"),
                );
            }
            if k <= last {
                rep.push(
                    "7.3.6.7",
                    Some(id),
                    text1("transformative properties not in clap → irot → imir order"),
                );
            }
            proof {
                let a = found(!e.essential, "7.3.9", Some(id), not_essential(t));
                let b = found(
                    k <= last,
                    "7.3.6.7",
                    Some(id),
                    "transformative properties not in clap → irot → imir order"@,
                );
                let rest = transform_findings(es, i + 1, k as int, id);
                assert(rep@ =~= before + a + b);
                assert(before + (a + b + rest) =~= rep@ + rest);
            }
            last = k;
        }
        i = i + 1;
    }
    assert(rep@ =~= start + goal);
}

/// Whether a property configures a decoder.
pub open spec fn configures(p: PropertyModel) -> bool {
    p is HvcC || p is Av1C || p is LhvC || p is AvcC
}

/// What the first `n` properties violate: a decoder configuration is essential
/// (HEIF §6.5.2).
pub open spec fn config_findings(es: Seq<PropertyEntryModel>, n: int, id: u32) -> Seq<Finding>
    decreases n,
{
    if n <= 0 {
        Seq::empty()
    } else {
        config_findings(es, n - 1, id) + found(
            configures(es[n - 1].property) && !es[n - 1].essential,
            "HEIF 6.5.2",
            Some(id),
            "decoder configuration '"@ + fourcc_text(es[n - 1].property.box_type())
                + "' is not marked essential"@,
        )
    }
}

fn check_configs(rep: &mut MiafReport, props: &ItemProperties, id: u32)
    ensures
        final(rep)@ == old(rep)@ + config_findings(
            props@.entries,
            props@.entries.len() as int,
            id,
        ),
{
    let ghost start = rep@;
    let ghost es = props@.entries;
    let list: Vec<&PropertyEntry> = props.iter();
    assert(rep@ =~= start + config_findings(es, 0, id));
    for i in 0..list.len()
        invariant
            entry_views(list@) == es,
            rep@ == start + config_findings(es, i as int, id),
    {
        let e: &PropertyEntry = list[i];
        let ghost before = rep@;
        proof {
            assert(es[i as int] == e@);
        }
        let bad: bool = e.property.is_decoder_config() && !e.essential;
        if bad {
            let name: String = fourcc_str(&e.property.box_type());
            rep.push(
                "HEIF 6.5.2",
                Some(id),
                text3("decoder configuration '", name.as_str(), "' is not marked essential"),
            );
        }
        assert(rep@ =~= before + found(
            bad,
            "HEIF 6.5.2",
            Some(id),
            "decoder configuration '"@ + fourcc_text(e@.property.box_type())
                + "' is not marked essential"@,
        ));
        assert(rep@ =~= start + config_findings(es, i + 1, id));
    }
}

/// The findings of the first `n` essential properties of unknown types.
pub open spec fn unknown_findings(types: Seq<FourCc>, n: int, id: u32) -> Seq<Finding> {
    Seq::new(
        n as nat,
        |i: int|
            Finding {
                clause: "HEIF 10.2.1"@,
                item_id: Some(id),
                message: "essential property '"@ + fourcc_text(types[i]) + "' is not recognized"@,
            },
    )
}

fn check_unknown(rep: &mut MiafReport, props: &ItemProperties, id: u32)
    ensures
        final(rep)@ == old(rep)@ + unknown_findings(
            unknown_essential(props@.entries),
            unknown_essential(props@.entries).len() as int,
            id,
        ),
{
    let ghost start = rep@;
    let types: Vec<FourCc> = props.unsupported_essential();
    assert(rep@ =~= start + unknown_findings(types@, 0, id));
    for i in 0..types.len()
        invariant
            types@ == unknown_essential(props@.entries),
            rep@ == start + unknown_findings(types@, i as int, id),
    {
        let name: String = fourcc_str(&types[i]);
        rep.push(
            "HEIF 10.2.1",
            Some(id),
            text3("essential property '", name.as_str(), "' is not recognized"),
        );
        assert(rep@ =~= start + unknown_findings(types@, i + 1, id));
    }
}

/// The `auxC` property of an item, when it has one.
pub open spec fn aux_urn(p: ItemPropertiesModel) -> Option<Seq<char>> {
    match p.first(PropertyKind::AuxC) {
        Some(PropertyModel::AuxC(a)) => Some(a.aux_type),
        _ => None,
    }
}

/// Whether colour information is limited-range CICP.
pub open spec fn limited_range(c: Option<ColrModel>) -> bool {
    c matches Some(ColrModel::Nclx { full_range, .. }) && !full_range
}

/// What an auxiliary item violates: alpha with CICP is full range (§7.3.5.2),
/// and an auxiliary is no thumbnail.
pub open spec fn auxiliary_findings(m: MetaModel, p: ItemPropertiesModel, id: u32) -> Seq<Finding> {
    match aux_urn(p) {
        None => Seq::empty(),
        Some(urn) => found(
            urn_kind(urn) == AuxKind::Alpha && limited_range(first_nclx(p.colrs())),
            "7.3.5.2",
            Some(id),
            "alpha auxiliary carries CICP with full_range_flag 0"@,
        ) + found(
            m.references_from(id, reference::AUXL).len() > 0 && m.references_from(
                id,
                reference::THMB,
            ).len() > 1,
            "HEIF 6.4.6",
            Some(id),
            "item is both auxiliary and thumbnail"@,
        ),
    }
}

fn check_auxiliary(rep: &mut MiafReport, meta: &Meta, props: &ItemProperties, id: u32)
    ensures
        final(rep)@ == old(rep)@ + auxiliary_findings(meta@, props@, id),
{
    let ghost start = rep@;
    if let Some(a) = props.auxc() {
        if matches!(a.kind(), AuxKind::Alpha) {
            if let Some(Colr::Nclx { full_range, .. }) = props.nclx() {
                if !*full_range {
                    rep.push(
                        "7.3.5.2",
                        Some(id),
                        text1("alpha auxiliary carries CICP with full_range_flag 0"),
                    );
                }
            }
        }
        if meta.references_from(id, &reference::AUXL).len() > 0 && meta.references_from(
            id,
            &reference::THMB,
        ).len() > 1 {
            rep.push("HEIF 6.4.6", Some(id), text1("item is both auxiliary and thumbnail"));
        }
    }
    assert(rep@ =~= start + auxiliary_findings(meta@, props@, id));
}

/// The number of CICP entries of a list.
pub open spec fn nclx_count(cs: Seq<ColrModel>) -> int
    decreases cs.len(),
{
    if cs.len() == 0 {
        0
    } else {
        nclx_count(cs.drop_last()) + (if cs.last() is Nclx {
            1int
        } else {
            0
        })
    }
}

/// The number of ICC profiles of a list.
pub open spec fn icc_count(cs: Seq<ColrModel>) -> int
    decreases cs.len(),
{
    if cs.len() == 0 {
        0
    } else {
        icc_count(cs.drop_last()) + (if cs.last() is Icc {
            1int
        } else {
            0
        })
    }
}

/// Whether CICP leaves primaries and transfer to the ICC profile beside it.
pub open spec fn unspecified(c: Option<ColrModel>) -> bool {
    c matches Some(ColrModel::Nclx { primaries, transfer, .. }) ==> primaries == 2 && transfer == 2
}

/// What the colour properties violate (HEIF §6.5.5): at most one CICP entry and
/// one ICC profile, and of both the first leaves the colours to the second.
pub open spec fn colour_findings(p: ItemPropertiesModel, id: u32) -> Seq<Finding> {
    let cs = p.colrs();
    found(
        nclx_count(cs) > 1 || icc_count(cs) > 1 || cs.len() > 2,
        "HEIF 6.5.5",
        Some(id),
        decimal_chars(cs.len()) + " colr properties (at most one nclx and one ICC)"@,
    ) + found(
        icc_count(cs) == 1 && nclx_count(cs) == 1 && !unspecified(first_nclx(cs)),
        "HEIF 6.5.5",
        Some(id),
        "nclx paired with an ICC profile shall use colour_primaries = transfer_characteristics = 2"@,
    )
}

fn check_colours(rep: &mut MiafReport, props: &ItemProperties, id: u32)
    ensures
        final(rep)@ == old(rep)@ + colour_findings(props@, id),
{
    let ghost start = rep@;
    let colrs: Vec<&Colr> = props.colrs();
    let ghost cs = props@.colrs();
    let mut nclx: usize = 0;
    let mut icc: usize = 0;
    assert(cs.take(0) =~= Seq::empty());
    for i in 0..colrs.len()
        invariant
            colr_views(colrs@) == cs,
            nclx == nclx_count(cs.take(i as int)),
            icc == icc_count(cs.take(i as int)),
            nclx <= i,
            icc <= i,
    {
        proof {
            assert(cs.take(i + 1).drop_last() =~= cs.take(i as int));
            assert(cs.take(i + 1).last() == colrs@[i as int]@);
        }
        if matches!(colrs[i], Colr::Nclx { .. }) {
            nclx = nclx + 1;
        }
        if colrs[i].is_icc() {
            icc = icc + 1;
        }
    }
    assert(cs.take(cs.len() as int) =~= cs);
    if nclx > 1 || icc > 1 || colrs.len() > 2 {
        let n: String = decimal(colrs.len() as u64);
        rep.push(
            "HEIF 6.5.5",
            Some(id),
            text2(n.as_str(), " colr properties (at most one nclx and one ICC)"),
        );
    }
    if icc == 1 && nclx == 1 {
        if let Some(Colr::Nclx { primaries, transfer, .. }) = props.nclx() {
            if *primaries != 2 || *transfer != 2 {
                rep.push(
                    "HEIF 6.5.5",
                    Some(id),
                    text1("nclx paired with an ICC profile shall use colour_primaries = transfer_characteristics = 2"),
                );
            }
        }
    }
    assert(rep@ =~= start + colour_findings(props@, id));
}

/// What the storage of the first `n` metadata items violates (§7.2.1.13).
pub open spec fn metadata_findings(m: MetaModel, ids: Seq<u32>, n: int) -> Seq<Finding>
    decreases n,
{
    if n <= 0 {
        Seq::empty()
    } else {
        metadata_findings(m, ids, n - 1) + found(
            m.location(ids[n - 1]) matches Some(loc) && loc.construction_method != 0,
            "7.2.1.13",
            Some(ids[n - 1]),
            "Exif / XMP metadata item is not stored in a MediaDataBox"@,
        )
    }
}

fn check_metadata(rep: &mut MiafReport, meta: &Meta, id: u32)
    ensures
        ({
            let ids = meta@.references_to(id, reference::CDSC);
            final(rep)@ == old(rep)@ + metadata_findings(meta@, ids, ids.len() as int)
        }),
{
    let ghost start = rep@;
    let ids: Vec<u32> = meta.metadata_of(id);
    assert(rep@ =~= start + metadata_findings(meta@, ids@, 0));
    for i in 0..ids.len()
        invariant
            rep@ == start + metadata_findings(meta@, ids@, i as int),
    {
        let m: u32 = ids[i];
        let ghost before = rep@;
        if let Some(loc) = meta.location(m) {
            if loc.construction_method != 0 {
                rep.push(
                    "7.2.1.13",
                    Some(m),
                    text1("Exif / XMP metadata item is not stored in a MediaDataBox"),
                );
            }
        }
        assert(rep@ =~= start + metadata_findings(meta@, ids@, i + 1));
    }
}

/// The largest depth and the permitted chroma formats of an HEVC profile.
pub open spec fn hevc_limits(profile: MiafProfile, chroma_format_idc: u8) -> (int, bool) {
    match profile {
        MiafProfile::HevcBasic => (8, chroma_format_idc == 1),
        MiafProfile::HevcAdvanced => (10, chroma_format_idc == 1 || chroma_format_idc == 2),
        _ => (10, true),
    }
}

/// What an HEVC configuration violates: level 6 (180), Main tier, depth and chroma
/// format of the profile. The depths are those of luma and chroma, less eight.
pub open spec fn hevc_findings(
    profile: MiafProfile,
    level: u8,
    high_tier: bool,
    depths: (u8, u8),
    chroma: u8,
    id: u32,
) -> Seq<Finding> {
    let (max_depth, chroma_ok) = hevc_limits(profile, chroma);
    let depth = 8 + (if depths.0 < depths.1 {
        depths.1
    } else {
        depths.0
    });
    found(
        level > 180,
        "A.3.2",
        Some(id),
        "general_level_idc "@ + decimal_chars(level as nat) + " exceeds level 6"@,
    ) + found(high_tier, "A.3.2", Some(id), "High tier (Main tier required)"@) + found(
        depth > max_depth,
        "A.3.2",
        Some(id),
        "bit depth "@ + decimal_chars(depth as nat) + " exceeds the profile's "@ + decimal_chars(
            max_depth as nat,
        ),
    ) + found(
        !chroma_ok,
        "A.3.2",
        Some(id),
        "chroma format "@ + chroma_text(chroma) + " not permitted by the profile"@,
    )
}

/// What an AV1 configuration violates: profile and level of the basic or the
/// advanced profile.
pub open spec fn av1_findings(basic: bool, seq_profile: u8, level: u8, id: u32) -> Seq<Finding> {
    let max_profile: nat = if basic {
        0
    } else {
        1
    };
    let max_level: nat = if basic {
        13
    } else {
        16
    };
    found(
        seq_profile > max_profile,
        "AVIF 7",
        Some(id),
        "seq_profile "@ + decimal_chars(seq_profile as nat) + " exceeds the profile's "@
            + decimal_chars(max_profile),
    ) + found(
        level > max_level,
        "AVIF 7",
        Some(id),
        "seq_level_idx_0 "@ + decimal_chars(level as nat) + " exceeds "@ + decimal_chars(max_level),
    )
}

/// What an item violates of the coding constraints of a profile (Annex A).
pub open spec fn codec_findings(
    profile: MiafProfile,
    item_type: FourCc,
    p: ItemPropertiesModel,
    id: u32,
) -> Seq<Finding> {
    match profile {
        MiafProfile::HevcBasic | MiafProfile::HevcAdvanced | MiafProfile::HevcExtended => {
            if item_type != ITEM_TYPE_HVC1 {
                Seq::empty()
            } else {
                match p.first(PropertyKind::HvcC) {
                    Some(PropertyModel::HvcC(h)) => {
                        hevc_findings(
                            profile,
                            h.general_level_idc,
                            h.general_tier_flag,
                            (h.bit_depth_luma_minus8, h.bit_depth_chroma_minus8),
                            h.chroma_format_idc,
                            id,
                        )
                    },
                    _ => found(true, "HEIF B.2.3.1", Some(id), "hvc1 item without hvcC"@),
                }
            }
        },
        MiafProfile::Av1Basic | MiafProfile::Av1Advanced => {
            if item_type != ITEM_TYPE_AV01 {
                Seq::empty()
            } else {
                match p.first(PropertyKind::Av1C) {
                    Some(PropertyModel::Av1C(a)) => {
                        av1_findings(
                            profile == MiafProfile::Av1Basic,
                            a.seq_profile,
                            a.seq_level_idx_0,
                            id,
                        )
                    },
                    _ => found(true, "AVIF 4.2", Some(id), "av01 item without av1C"@),
                }
            }
        },
        MiafProfile::Miaf | MiafProfile::AvcBasic => Seq::empty(),
    }
}

fn check_hevc(rep: &mut MiafReport, profile: MiafProfile, h: &HevcConfig, id: u32)
    ensures
        final(rep)@ == old(rep)@ + hevc_findings(
            profile,
            h.general_level_idc,
            h.general_tier_flag,
            (h.bit_depth_luma_minus8, h.bit_depth_chroma_minus8),
            h.chroma_format_idc,
            id,
        ),
{
    let ghost start = rep@;
    // Level 6 = 180.
    if h.general_level_idc > 180 {
        let n: String = decimal(h.general_level_idc as u64);
        rep.push("A.3.2", Some(id), text3("general_level_idc ", n.as_str(), " exceeds level 6"));
    }
    if h.general_tier_flag {
        rep.push("A.3.2", Some(id), text1("High tier (Main tier required)"));
    }
    let luma: u16 = h.bit_depth_luma_minus8 as u16 + 8;
    let chroma: u16 = h.bit_depth_chroma_minus8 as u16 + 8;
    let depth: u16 = if luma < chroma {
        chroma
    } else {
        luma
    };
    let idc: u8 = h.chroma_format_idc;
    let (max_depth, chroma_ok): (u16, bool) = match profile {
        MiafProfile::HevcBasic => (8, idc == 1),
        MiafProfile::HevcAdvanced => (10, idc == 1 || idc == 2),
        _ => (10, true),
    };
    if depth > max_depth {
        let n: String = decimal(depth as u64);
        let m: String = decimal(max_depth as u64);
        rep.push(
            "A.3.2",
            Some(id),
            text4("bit depth ", n.as_str(), " exceeds the profile's ", m.as_str()),
        );
    }
    if !chroma_ok {
        rep.push(
            "A.3.2",
            Some(id),
            text3("chroma format ", h.chroma_name(), " not permitted by the profile"),
        );
    }
    assert(rep@ =~= start + hevc_findings(
        profile,
        h.general_level_idc,
        h.general_tier_flag,
        (h.bit_depth_luma_minus8, h.bit_depth_chroma_minus8),
        h.chroma_format_idc,
        id,
    ));
}

fn check_av1(rep: &mut MiafReport, basic: bool, a: &Av1Config, id: u32)
    ensures
        final(rep)@ == old(rep)@ + av1_findings(basic, a.seq_profile, a.seq_level_idx_0, id),
{
    let ghost start = rep@;
    let max_profile: u8 = if basic {
        0
    } else {
        1
    };
    if a.seq_profile > max_profile {
        let n: String = decimal(a.seq_profile as u64);
        let m: String = decimal(max_profile as u64);
        rep.push(
            "AVIF 7",
            Some(id),
            text4("seq_profile ", n.as_str(), " exceeds the profile's ", m.as_str()),
        );
    }
    let max_level: u8 = if basic {
        13
    } else {
        16
    };
    if a.seq_level_idx_0 > max_level {
        let n: String = decimal(a.seq_level_idx_0 as u64);
        let m: String = decimal(max_level as u64);
        rep.push(
            "AVIF 7",
            Some(id),
            text4("seq_level_idx_0 ", n.as_str(), " exceeds ", m.as_str()),
        );
    }
    assert(rep@ =~= start + av1_findings(basic, a.seq_profile, a.seq_level_idx_0, id));
}

fn check_codec(
    rep: &mut MiafReport,
    profile: MiafProfile,
    item_type: FourCc,
    props: &ItemProperties,
    id: u32,
)
    ensures
        final(rep)@ == old(rep)@ + codec_findings(profile, item_type, props@, id),
{
    let ghost start = rep@;
    match profile {
        MiafProfile::HevcBasic | MiafProfile::HevcAdvanced | MiafProfile::HevcExtended => {
            // Other coding formats may be present (§7.3.4) but the
            // profile's items are hvc1; nothing to check for them.
            if fourcc_eq(&item_type, &ITEM_TYPE_HVC1) {
                match props.hvcc() {
                    Some(h) => check_hevc(rep, profile, h, id),
                    None => rep.push("HEIF B.2.3.1", Some(id), text1("hvc1 item without hvcC")),
                }
            }
        },
        MiafProfile::Av1Basic | MiafProfile::Av1Advanced => {
            if fourcc_eq(&item_type, &ITEM_TYPE_AV01) {
                match props.av1c() {
                    Some(a) => check_av1(rep, matches!(profile, MiafProfile::Av1Basic), a, id),
                    None => rep.push("AVIF 4.2", Some(id), text1("av01 item without av1C")),
                }
            }
        },
        MiafProfile::Miaf | MiafProfile::AvcBasic => {},
    }
    assert(rep@ =~= start + codec_findings(profile, item_type, props@, id));
}

/// What the pixel shape of an item violates: pixels are square (§7.3.6.5).
pub open spec fn pixel_findings(p: ItemPropertiesModel, id: u32) -> Seq<Finding> {
    match p.first(PropertyKind::Pasp) {
        Some(PropertyModel::Pasp(x)) => found(
            x.h_spacing != x.v_spacing || x.h_spacing == 0,
            "7.3.6.5",
            Some(id),
            "pasp "@ + decimal_chars(x.h_spacing as nat) + ":"@ + decimal_chars(x.v_spacing as nat)
                + " (shall be 1:1)"@,
        ),
        _ => Seq::empty(),
    }
}

/// What the properties of an image item violate.
pub open spec fn property_findings(
    m: MetaModel,
    it: ItemInfoModel,
    p: ItemPropertiesModel,
    profile: MiafProfile,
) -> Seq<Finding> {
    let id = it.id;
    let about = m.references_to(id, reference::CDSC);
    found(
        p.first(PropertyKind::Ispe) is None,
        "7.3.6.3",
        Some(id),
        "no ispe property"@,
    ) + pixel_findings(p, id) + transform_findings(p.transformative(), 0, 0, id) + config_findings(
        p.entries,
        p.entries.len() as int,
        id,
    ) + unknown_findings(
        unknown_essential(p.entries),
        unknown_essential(p.entries).len() as int,
        id,
    ) + auxiliary_findings(m, p, id) + colour_findings(p, id) + metadata_findings(
        m,
        about,
        about.len() as int,
    ) + codec_findings(profile, it.item_type, p, id)
}

/// The texts of the errors a check comes upon: for each item that of its properties,
/// and that of the derivation of the primary item.
pub struct Refusals {
    /// By place of the item.
    pub properties: Seq<Seq<char>>,
    /// Of the derivation.
    pub derivation: Seq<char>,
}

/// Whether a text can be that of an error: it begins with the class of the error.
pub open spec fn tells(text: Seq<char>, kind: ErrorKind) -> bool {
    class_text(kind).is_prefix_of(text)
}

/// Whether a text can be that of the error of an item's properties: behind the class
/// it names the item, the property, and the class of the property's own error.
pub open spec fn tells_property(m: MetaModel, id: u32, text: Seq<char>, kind: ErrorKind) -> bool {
    (class_text(kind) + refusal_start(m.properties_of(id), 0, id)).is_prefix_of(text)
}

/// What an image item violates. `refusal` is the text of the error when its
/// properties cannot be read.
pub open spec fn item_findings(
    m: MetaModel,
    it: ItemInfoModel,
    profile: MiafProfile,
    refusal: Seq<char>,
) -> Seq<Finding> {
    storage_findings(m, it, profile.shared()) + (match item_properties(m, it.id) {
        Err(_) => found(true, "7.3.6", Some(it.id), refusal),
        Ok(p) => property_findings(m, it, p, profile),
    })
}

fn check_properties(
    rep: &mut MiafReport,
    meta: &Meta,
    it: &ItemInfo,
    props: &ItemProperties,
    profile: MiafProfile,
)
    ensures
        final(rep)@ == old(rep)@ + property_findings(meta@, it@, props@, profile),
{
    let ghost start = rep@;
    let ghost m = meta@;
    let ghost p = props@;
    let id: u32 = it.id;
    // §7.3.6.3 ispe mandatory.
    if props.ispe().is_none() {
        rep.push("7.3.6.3", Some(id), text1("no ispe property"));
    }
    let ghost mut all = found(
        p.first(PropertyKind::Ispe) is None,
        "7.3.6.3",
        Some(id),
        "no ispe property"@,
    );
    assert(rep@ =~= start + all);
    // §7.3.6.5 square pixels.
    check_pixels(rep, props, id);
    proof {
        all = lemma_joined(start, all, pixel_findings(p, id));
    }
    // §7.3.9 transformative: essential, from {clap, irot, imir}, ordered.
    check_transforms(rep, props, id);
    proof {
        all = lemma_joined(start, all, transform_findings(p.transformative(), 0, 0, id));
    }
    // HEIF B.2.3.1 / §6.5.2: decoder configuration essential.
    check_configs(rep, props, id);
    proof {
        all = lemma_joined(start, all, config_findings(p.entries, p.entries.len() as int, id));
    }
    check_unknown(rep, props, id);
    proof {
        let types = unknown_essential(p.entries);
        all = lemma_joined(start, all, unknown_findings(types, types.len() as int, id));
    }
    // §7.3.5.2 alpha with CICP: full range.
    check_auxiliary(rep, meta, props, id);
    proof {
        all = lemma_joined(start, all, auxiliary_findings(m, p, id));
    }
    // §7.3.6.4 colr count / kinds; HEIF §6.5.5 pairing rule.
    check_colours(rep, props, id);
    proof {
        all = lemma_joined(start, all, colour_findings(p, id));
    }
    // Metadata bodies in mdat (§7.2.1.13).
    check_metadata(rep, meta, id);
    proof {
        let about = m.references_to(id, reference::CDSC);
        all = lemma_joined(start, all, metadata_findings(m, about, about.len() as int));
    }
    // Codec profile constraints.
    check_codec(rep, profile, it.item_type, props, id);
    proof {
        all = lemma_joined(start, all, codec_findings(profile, it.item_type, p, id));
    }
}

/// Two lists after a third are their join after it.
proof fn lemma_joined(start: Seq<Finding>, a: Seq<Finding>, b: Seq<Finding>) -> (r: Seq<Finding>)
    ensures
        r == a + b,
        start + a + b == start + r,
{
    assert(start + a + b =~= start + (a + b));
    a + b
}

fn check_pixels(rep: &mut MiafReport, props: &ItemProperties, id: u32)
    ensures
        final(rep)@ == old(rep)@ + pixel_findings(props@, id),
{
    let ghost start = rep@;
    if let Some(p) = props.pasp() {
        if !p.is_square() {
            let h: String = decimal(p.h_spacing as u64);
            let v: String = decimal(p.v_spacing as u64);
            rep.push(
                "7.3.6.5",
                Some(id),
                text5("pasp ", h.as_str(), ":", v.as_str(), " (shall be 1:1)"),
            );
        }
    }
    assert(rep@ =~= start + pixel_findings(props@, id));
}

fn check_item(rep: &mut MiafReport, meta: &Meta, it: &ItemInfo, profile: MiafProfile) -> (refusal:
    Ghost<Seq<char>>)
    ensures
        final(rep)@ == old(rep)@ + item_findings(meta@, it@, profile, refusal@),
        item_properties(meta@, it@.id) matches Err(k) ==> tells_property(
            meta@,
            it@.id,
            refusal@,
            k,
        ),
{
    let ghost start = rep@;
    let ghost mut refusal: Seq<char> = Seq::empty();
    check_storage(rep, meta, it, profile);
    match ItemProperties::resolve(meta, it.id) {
        Ok(props) => check_properties(rep, meta, it, &props, profile),
        Err(e) => {
            let text: String = e.to_string();
            proof {
                refusal = text@;
                let start = refusal_start(meta@.properties_of(it.id), 0, it.id);
                let head = class_text(e.kind()) + start;
                assert(e.message().subrange(0, start.len() as int) == start);
                assert(refusal.subrange(0, head.len() as int) =~= head);
            }
            rep.push("7.3.6", Some(it.id), text);
        },
    }
    assert(rep@ =~= start + item_findings(meta@, it@, profile, refusal));
    Ghost(refusal)
}

/// What the image items among the first `n` violate.
pub open spec fn items_findings(
    m: MetaModel,
    n: int,
    profile: MiafProfile,
    refusals: Seq<Seq<char>>,
) -> Seq<Finding>
    decreases n,
{
    if n <= 0 {
        Seq::empty()
    } else {
        items_findings(m, n - 1, profile, refusals) + (if m.items[n - 1].image() {
            item_findings(m, m.items[n - 1], profile, refusals[n - 1])
        } else {
            Seq::empty()
        })
    }
}

/// Whether texts can be those of the errors of the first `n` items.
pub open spec fn properties_told(m: MetaModel, n: int, refusals: Seq<Seq<char>>) -> bool {
    forall|i: int|
        0 <= i < n && m.items[i].image() ==> (item_properties(
            m,
            (#[trigger] m.items[i]).id,
        ) matches Err(k) ==> tells_property(m, m.items[i].id, refusals[i], k))
}

/// Findings depend on the texts of their own items only.
proof fn lemma_items_prefix(
    m: MetaModel,
    n: int,
    profile: MiafProfile,
    a: Seq<Seq<char>>,
    b: Seq<Seq<char>>,
)
    requires
        forall|i: int| 0 <= i < n ==> a[i] == b[i],
    ensures
        items_findings(m, n, profile, a) == items_findings(m, n, profile, b),
    decreases n,
{
    if n > 0 {
        lemma_items_prefix(m, n - 1, profile, a, b);
        assert(a[n - 1] == b[n - 1]);
    }
}

fn check_items(rep: &mut MiafReport, meta: &Meta, profile: MiafProfile) -> (refusals: Ghost<
    Seq<Seq<char>>,
>)
    ensures
        final(rep)@ == old(rep)@ + items_findings(
            meta@,
            meta@.items.len() as int,
            profile,
            refusals@,
        ),
        properties_told(meta@, meta@.items.len() as int, refusals@),
{
    let ghost start = rep@;
    let ghost m = meta@;
    let ghost mut told: Seq<Seq<char>> = Seq::empty();
    assert(rep@ =~= start + items_findings(m, 0, profile, told));
    let mut i: usize = 0;
    while i < meta.items.len()
        invariant
            i <= meta.items@.len(),
            m == meta@,
            told.len() == i,
            rep@ == start + items_findings(m, i as int, profile, told),
            properties_told(m, i as int, told),
        decreases meta.items@.len() - i,
    {
        let it: &ItemInfo = &meta.items[i];
        assert(m.items[i as int] == it@);
        let ghost before = told;
        let ghost mut text: Seq<char> = Seq::empty();
        if it.is_image() {
            let Ghost(t) = check_item(rep, meta, it, profile);
            proof {
                text = t;
            }
        }
        proof {
            told = before.push(text);
            lemma_items_prefix(m, i as int, profile, before, told);
            assert forall|k: int| 0 <= k < i implies told[k] == before[k] by {}
            assert(told[i as int] == text);
        }
        i = i + 1;
        assert(rep@ =~= start + items_findings(m, i as int, profile, told));
    }
    Ghost(told)
}

/// The pixels an item declares, 0 without a size.
pub open spec fn pixels_of(m: MetaModel, id: u32) -> int {
    match item_properties(m, id) {
        Err(_) => 0,
        Ok(p) => match declared_size(p) {
            Some(s) => s.0 * s.1,
            None => 0,
        },
    }
}

fn pixel_count(meta: &Meta, id: u32) -> (r: u64)
    ensures
        r == pixels_of(meta@, id),
{
    match ItemProperties::resolve(meta, id) {
        Err(_) => 0,
        Ok(p) => match p.ispe() {
            None => 0,
            Some(i) => {
                proof {
                    assert(0 <= i.width * i.height <= 0xffff_ffff * 0xffff_ffff)
                        by (nonlinear_arith)
                        requires
                            0 <= i.width <= 0xffff_ffff,
                            0 <= i.height <= 0xffff_ffff,
                    ;
                }
                i.width as u64 * i.height as u64
            },
        },
    }
}

/// An ascending list with one more number in its place.
pub open spec fn with_number(s: Seq<u64>, v: u64) -> Seq<u64>
    decreases s.len(),
{
    if s.len() == 0 || s.last() <= v {
        s.push(v)
    } else {
        with_number(s.drop_last(), v).push(s.last())
    }
}

/// The pixel counts of the first `n` items of a list, ascending.
pub open spec fn ladder(m: MetaModel, ids: Seq<u32>, n: int) -> Seq<u64>
    decreases n,
{
    if n <= 0 {
        Seq::empty()
    } else {
        with_number(ladder(m, ids, n - 1), pixels_of(m, ids[n - 1]) as u64)
    }
}

/// Whether a list is ascending.
pub open spec fn ascending(s: Seq<u64>) -> bool {
    forall|i: int, j: int| 0 <= i <= j < s.len() ==> s[i] <= s[j]
}

proof fn lemma_with_number(s: Seq<u64>, v: u64)
    requires
        ascending(s),
    ensures
        ascending(with_number(s, v)),
        with_number(s, v).to_multiset() == s.to_multiset().insert(v),
        with_number(s, v).len() == s.len() + 1,
    decreases s.len(),
{
    broadcast use vstd::seq_lib::group_to_multiset_ensures;

    if s.len() > 0 && s.last() > v {
        let front = s.drop_last();
        lemma_with_number(front, v);
        let w = with_number(front, v);
        assert forall|i: int| 0 <= i < w.len() implies w[i] <= s.last() by {
            assert(w.to_multiset().count(w[i]) > 0);
            if w[i] != v {
                assert(front.to_multiset().count(w[i]) > 0);
                assert(front.contains(w[i]));
            }
        }
        assert(s =~= front.push(s.last()));
        assert(with_number(s, v).to_multiset() =~= s.to_multiset().insert(v));
    }
}

/// The ladder of a list of items is ascending, and holds the pixel count of
/// each of them.
#[verifier::rlimit(50)]
pub proof fn law_ladder(m: MetaModel, ids: Seq<u32>, n: int)
    requires
        0 <= n <= ids.len(),
    ensures
        ascending(ladder(m, ids, n)),
        ladder(m, ids, n).to_multiset() == Seq::new(
            n as nat,
            |i: int| pixels_of(m, ids[i]) as u64,
        ).to_multiset(),
    decreases n,
{
    broadcast use vstd::seq_lib::group_to_multiset_ensures;

    let all = Seq::new(n as nat, |i: int| pixels_of(m, ids[i]) as u64);
    if n > 0 {
        law_ladder(m, ids, n - 1);
        lemma_with_number(ladder(m, ids, n - 1), pixels_of(m, ids[n - 1]) as u64);
        let front = Seq::new((n - 1) as nat, |i: int| pixels_of(m, ids[i]) as u64);
        assert(all =~= front.push(pixels_of(m, ids[n - 1]) as u64));
    } else {
        assert(all =~= Seq::empty());
    }
}

fn insert_number(s: &mut Vec<u64>, v: u64)
    ensures
        final(s)@ == with_number(old(s)@, v),
{
    let ghost start = s@;
    let mut i: usize = s.len();
    assert(start.take(i as int) =~= start);
    assert(with_number(start, v) =~= with_number(start.take(i as int), v) + start.skip(i as int));
    while i > 0 && s[i - 1] > v
        invariant
            s@ == start,
            i <= start.len(),
            with_number(start, v) == with_number(start.take(i as int), v) + start.skip(i as int),
        decreases i,
    {
        proof {
            let t = start.take(i as int);
            assert(t.drop_last() =~= start.take(i - 1));
            assert(t.last() == start[i - 1]);
            assert(with_number(t.drop_last(), v).push(t.last()) + start.skip(i as int)
                =~= with_number(t.drop_last(), v) + start.skip(i - 1));
        }
        i = i - 1;
    }
    proof {
        let t = start.take(i as int);
        if i > 0 {
            assert(t.last() == start[i - 1]);
        }
        assert(t.push(v) + start.skip(i as int) =~= start.insert(i as int, v));
    }
    s.insert(i, v);
}

/// What is said of a step that is too large.
pub open spec fn step_message(a: u64, b: u64) -> Seq<char> {
    "pixel count "@ + decimal_chars(a as nat) + " → "@ + decimal_chars(b as nat)
        + " exceeds the factor-"@ + decimal_chars(SIZE_FACTOR_LIMIT as nat) + " thumbnail ladder"@
}

/// What the first `n` steps of a ladder violate (§7.3.3): a step is at most by
/// a factor of 200.
pub open spec fn step_findings(s: Seq<u64>, n: int, id: u32) -> Seq<Finding>
    decreases n,
{
    if n <= 0 {
        Seq::empty()
    } else {
        step_findings(s, n - 1, id) + found(
            s[n - 1] > 0 && s[n] > s[n - 1] * SIZE_FACTOR_LIMIT,
            "7.3.3",
            Some(id),
            step_message(s[n - 1], s[n]),
        )
    }
}

/// What the thumbnails of an item violate.
pub open spec fn thumbnail_findings(m: MetaModel, id: u32) -> Seq<Finding> {
    let thumbs = m.references_to(id, reference::THMB);
    let n = thumbs.len() as int;
    if n == 0 {
        Seq::empty()
    } else {
        step_findings(ladder(m, thumbs, n).push(pixels_of(m, id) as u64), n, id)
    }
}

pub(crate) proof fn lemma_ladder_len(m: MetaModel, ids: Seq<u32>, n: int)
    requires
        0 <= n,
    ensures
        ladder(m, ids, n).len() == n,
    decreases n,
{
    if n > 0 {
        lemma_ladder_len(m, ids, n - 1);
        lemma_number_len(ladder(m, ids, n - 1), pixels_of(m, ids[n - 1]) as u64);
    }
}

proof fn lemma_number_len(s: Seq<u64>, v: u64)
    ensures
        with_number(s, v).len() == s.len() + 1,
    decreases s.len(),
{
    if s.len() > 0 && s.last() > v {
        lemma_number_len(s.drop_last(), v);
    }
}

fn check_thumbnails(rep: &mut MiafReport, meta: &Meta, id: u32)
    ensures
        final(rep)@ == old(rep)@ + thumbnail_findings(meta@, id),
{
    let ghost start = rep@;
    let thumbs: Vec<u32> = meta.thumbnails_of(id);
    if thumbs.len() == 0 {
        assert(rep@ =~= start + thumbnail_findings(meta@, id));
        return;
    }
    let mut sizes: Vec<u64> = Vec::new();
    assert(sizes@ =~= Seq::empty());
    for i in 0..thumbs.len()
        invariant
            sizes@ == ladder(meta@, thumbs@, i as int),
    {
        let n: u64 = pixel_count(meta, thumbs[i]);
        insert_number(&mut sizes, n);
    }
    let whole: u64 = pixel_count(meta, id);
    sizes.push(whole);
    let steps: usize = thumbs.len();
    proof {
        lemma_ladder_len(meta@, thumbs@, steps as int);
    }
    assert(rep@ =~= start + step_findings(sizes@, 0, id));
    for i in 0..steps
        invariant
            sizes@.len() == steps + 1,
            rep@ == start + step_findings(sizes@, i as int, id),
    {
        let (a, b) = (sizes[i], sizes[i + 1]);
        let ghost before = rep@;
        let bad: bool = a > 0 && b as u128 > a as u128 * SIZE_FACTOR_LIMIT as u128;
        if bad {
            let x: String = decimal(a);
            let y: String = decimal(b);
            let f: String = decimal(SIZE_FACTOR_LIMIT);
            rep.push(
                "7.3.3",
                Some(id),
                text7("pixel count ", x.as_str(), " → ", y.as_str(), " exceeds the factor-", f.as_str(), " thumbnail ladder"),
            );
        }
        assert(rep@ =~= before + found(bad, "7.3.3", Some(id), step_message(a, b)));
        assert(rep@ =~= start + step_findings(sizes@, i + 1, id));
    }
}

/// What the thumbnails of the image items among the first `n` violate.
pub open spec fn ladders_findings(m: MetaModel, n: int) -> Seq<Finding>
    decreases n,
{
    if n <= 0 {
        Seq::empty()
    } else {
        ladders_findings(m, n - 1) + (if m.items[n - 1].image() {
            thumbnail_findings(m, m.items[n - 1].id)
        } else {
            Seq::empty()
        })
    }
}

fn check_ladders(rep: &mut MiafReport, meta: &Meta)
    ensures
        final(rep)@ == old(rep)@ + ladders_findings(meta@, meta@.items.len() as int),
{
    let ghost start = rep@;
    let ghost m = meta@;
    assert(rep@ =~= start + ladders_findings(m, 0));
    for i in 0..meta.items.len()
        invariant
            m == meta@,
            rep@ == start + ladders_findings(m, i as int),
    {
        let it: &ItemInfo = &meta.items[i];
        assert(m.items[i as int] == it@);
        let ghost before = rep@;
        if it.is_image() {
            check_thumbnails(rep, meta, it.id);
        }
        assert(rep@ =~= start + ladders_findings(m, i + 1));
    }
}

/// Whether one of the box types is `xml ` or `bxml`.
pub open spec fn has_xml(types: Seq<FourCc>) -> bool {
    exists|i: int|
        0 <= i < types.len() && ((#[trigger] types[i]) == tags::XML || types[i] == tags::BXML)
}

/// What the file-level boxes violate (§7.2.1).
pub open spec fn file_findings(f: FileModel, m: MetaModel) -> Seq<Finding> {
    found(
        !f.file_type.has(BRAND_MIF1),
        "7.2.1.1",
        None,
        "compatible brands lack 'mif1'"@,
    ) + found(
        crate::file::first_header(f.top_level, tags::MOOV) is Some && !f.file_type.has(BRAND_MSF1),
        "7.2.1.1",
        None,
        "file carries a moov box but the brands lack 'msf1'"@,
    ) + found(
        !(m.child_box_types.len() > 0 && m.child_box_types[0] == tags::HDLR),
        "7.2.1.1",
        None,
        "HandlerBox is not the first box in MetaBox"@,
    ) + (match m.handler {
        Some(h) => found(
            h.handler_type != tags::PICT,
            "7.2.1.5",
            None,
            "handler_type '"@ + fourcc_text(h.handler_type) + "' (shall be 'pict')"@,
        ),
        None => found(true, "7.2.1.5", None, "MetaBox has no HandlerBox"@),
    }) + found(
        has_xml(m.child_box_types),
        "7.2.1.4",
        None,
        "XMLBox / BinaryXMLBox present in MetaBox"@,
    )
}

fn check_file(rep: &mut MiafReport, file: &HeifFile, meta: &Meta)
    ensures
        final(rep)@ == old(rep)@ + file_findings(file@, meta@),
{
    let ghost start = rep@;
    // §7.2.1.1: mif1 shall be present; msf1 when a sequence track exists.
    if !file.file_type.has_brand(&BRAND_MIF1) {
        rep.push("7.2.1.1", None, text1("compatible brands lack 'mif1'"));
    }
    if file.has_moov() && !file.file_type.has_brand(&BRAND_MSF1) {
        rep.push("7.2.1.1", None, text1("file carries a moov box but the brands lack 'msf1'"));
    }
    // §7.2.1.1: hdlr first in meta; §7.2.1.5: 'pict'.
    if !(meta.child_box_types.len() > 0 && fourcc_eq(&meta.child_box_types[0], &tags::HDLR)) {
        rep.push("7.2.1.1", None, text1("HandlerBox is not the first box in MetaBox"));
    }
    match &meta.handler {
        Some(h) => {
            if !fourcc_eq(&h.handler_type, &tags::PICT) {
                let name: String = fourcc_str(&h.handler_type);
                rep.push(
                    "7.2.1.5",
                    None,
                    text3("handler_type '", name.as_str(), "' (shall be 'pict')"),
                );
            }
        },
        None => rep.push("7.2.1.5", None, text1("MetaBox has no HandlerBox")),
    }
    // §7.2.1.4: no xml/bxml in meta.
    let mut xml: bool = false;
    for i in 0..meta.child_box_types.len()
        invariant
            xml == exists|k: int|
                0 <= k < i && ((#[trigger] meta.child_box_types@[k]) == tags::XML
                    || meta.child_box_types@[k] == tags::BXML),
    {
        let t: &FourCc = &meta.child_box_types[i];
        if fourcc_eq(t, &tags::XML) || fourcc_eq(t, &tags::BXML) {
            xml = true;
        }
    }
    if xml {
        rep.push("7.2.1.4", None, text1("XMLBox / BinaryXMLBox present in MetaBox"));
    }
    assert(rep@ =~= start + file_findings(file@, meta@));
}

/// What the role of the primary item violates (§7.3.2).
pub open spec fn primary_findings(m: MetaModel, p: ItemInfoModel) -> Seq<Finding> {
    found(p.hidden(), "HEIF 6.4.2", Some(p.id), "primary item is hidden"@) + found(
        m.references_from(p.id, reference::THMB).len() > 0,
        "7.3.2",
        Some(p.id),
        "primary item is a thumbnail"@,
    ) + found(
        m.references_from(p.id, reference::AUXL).len() > 0,
        "7.3.2",
        Some(p.id),
        "primary item is an auxiliary image"@,
    )
}

fn check_primary(rep: &mut MiafReport, meta: &Meta, p: &ItemInfo)
    ensures
        final(rep)@ == old(rep)@ + primary_findings(meta@, p@),
{
    let ghost start = rep@;
    if p.is_hidden() {
        rep.push("HEIF 6.4.2", Some(p.id), text1("primary item is hidden"));
    }
    if meta.references_from(p.id, &reference::THMB).len() > 0 {
        rep.push("7.3.2", Some(p.id), text1("primary item is a thumbnail"));
    }
    if meta.references_from(p.id, &reference::AUXL).len() > 0 {
        rep.push("7.3.2", Some(p.id), text1("primary item is an auxiliary image"));
    }
    assert(rep@ =~= start + primary_findings(meta@, p@));
}

/// What is said of a primary item that is no image.
pub open spec fn not_an_image(t: FourCc) -> Seq<char> {
    "primary item type '"@ + fourcc_text(t) + "' is not an image item"@
}

/// Whether texts can be those of the errors a check of the file comes upon.
pub open spec fn told(f: FileModel, t: Refusals) -> bool {
    f.meta matches Some(m) ==> (f.primary() matches Some(p) ==> p.image() ==> {
        &&& properties_told(m, m.items.len() as int, t.properties)
        &&& graph_of(f, p.id) matches Err(k) ==> tells(t.derivation, k)
    })
}

/// Everything a file violates of a profile, with the texts of the errors that
/// its check comes upon.
pub open spec fn findings_of(f: FileModel, profile: MiafProfile, t: Refusals) -> Seq<Finding> {
    match f.meta {
        None => found(true, "7.2.1.4", None, "file-level MetaBox is missing"@),
        Some(m) => file_findings(f, m) + (match f.primary() {
            None => found(
                true,
                "7.2.1.10",
                None,
                class_text(ErrorKind::Invalid) + f.no_primary_message(),
            ),
            Some(p) => if !p.image() {
                found(true, "7.3.2", Some(p.id), not_an_image(p.item_type))
            } else {
                primary_findings(m, p) + items_findings(
                    m,
                    m.items.len() as int,
                    profile,
                    t.properties,
                ) + ladders_findings(m, m.items.len() as int) + (match graph_of(f, p.id) {
                    Ok(root) => derivation_findings(root, profile.shared()),
                    Err(_) => found(true, "7.3.11.1", Some(p.id), t.derivation),
                })
            },
        }),
    }
}

/// Whether a report is that of a file and a profile: everything the file violates, with
/// the texts of the errors that its check comes upon.
pub open spec fn reports(f: FileModel, profile: MiafProfile, rep: Seq<Finding>) -> bool {
    exists|t: Refusals| #[trigger] told(f, t) && rep == findings_of(f, profile, t)
}

/// Check `file` against the general MIAF requirements and, when
/// `profile` is a codec profile, its Annex A constraints.
pub fn check(file: &HeifFile, profile: MiafProfile) -> (r: Result<MiafReport>)
    ensures
        r matches Ok(rep) && reports(file@, profile, rep@),
{
    let mut rep: MiafReport = MiafReport::default();
    let ghost mut t: Refusals = Refusals { properties: Seq::empty(), derivation: Seq::empty() };
    let meta: &Meta = match &file.meta {
        Some(m) => m,
        None => {
            rep.push("7.2.1.4", None, text1("file-level MetaBox is missing"));
            assert(rep@ =~= findings_of(file@, profile, t));
            assert(told(file@, t));
            return Ok(rep);
        },
    };
    let ghost m = meta@;
    check_file(&mut rep, file, meta);
    let ghost head = file_findings(file@, m);
    assert(rep@ =~= head);
    // §7.2.1.10 / §7.3.2: primary item exists and is a master image.
    let primary: &ItemInfo = match file.primary_item() {
        Ok(p) => p,
        Err(e) => {
            rep.push("7.2.1.10", None, e.to_string());
            assert(rep@ =~= findings_of(file@, profile, t));
            assert(told(file@, t));
            return Ok(rep);
        },
    };
    let id: u32 = primary.id;
    if !primary.is_image() {
        let name: String = fourcc_str(&primary.item_type);
        rep.push(
            "7.3.2",
            Some(id),
            text3("primary item type '", name.as_str(), "' is not an image item"),
        );
        assert(rep@ =~= findings_of(file@, profile, t));
        assert(told(file@, t));
        return Ok(rep);
    }
    let ghost mut all = primary_findings(m, primary@);
    check_primary(&mut rep, meta, primary);
    let Ghost(properties) = check_items(&mut rep, meta, profile);
    proof {
        all = lemma_joined(head, all, items_findings(m, m.items.len() as int, profile, properties));
    }
    // §7.3.3 thumbnail factor.
    check_ladders(&mut rep, meta);
    proof {
        all = lemma_joined(head, all, ladders_findings(m, m.items.len() as int));
        t = Refusals { properties, derivation: Seq::empty() };
    }
    // Derivation chain checks (§7.3.11) on the primary item.
    match build_graph(file, id) {
        Ok(root) => {
            check_derivations(&mut rep, &root, profile);
            proof {
                all = lemma_joined(head, all, derivation_findings(root@, profile.shared()));
            }
        },
        Err(e) => {
            let ghost before = rep@;
            let text: String = e.to_string();
            proof {
                t = Refusals { properties, derivation: text@ };
                assert(text@.subrange(0, class_text(e.kind()).len() as int) =~= class_text(
                    e.kind(),
                ));
            }
            rep.push("7.3.11.1", Some(id), text);
            proof {
                let last = found(true, "7.3.11.1", Some(id), t.derivation);
                assert(rep@ =~= before + last);
                all = lemma_joined(head, all, last);
            }
        },
    }
    assert(told(file@, t));
    assert(rep@ == findings_of(file@, profile, t));
    Ok(rep)
}

/// Whether `at` are the places of the findings of `a` among those of `b`, in order.
pub open spec fn placed(a: Seq<Finding>, b: Seq<Finding>, at: Seq<int>) -> bool {
    &&& at.len() == a.len()
    &&& forall|i: int| 0 <= i < a.len() ==> 0 <= #[trigger] at[i] < b.len() && a[i] == b[at[i]]
    &&& forall|i: int, j: int| 0 <= i < j < a.len() ==> #[trigger] at[i] < #[trigger] at[j]
}

/// Whether the findings of `a` are a subsequence of those of `b`.
pub open spec fn within(a: Seq<Finding>, b: Seq<Finding>) -> bool {
    exists|at: Seq<int>| placed(a, b, at)
}

pub(crate) proof fn lemma_within_same(a: Seq<Finding>)
    ensures
        within(a, a),
{
    assert(placed(a, a, Seq::new(a.len(), |i: int| i)));
}

pub(crate) proof fn lemma_within_none(b: Seq<Finding>)
    ensures
        within(Seq::empty(), b),
{
    assert(placed(Seq::empty(), b, Seq::empty()));
}

pub(crate) proof fn lemma_within_both(a: Seq<Finding>, b: Seq<Finding>, c: Seq<Finding>, d: Seq<Finding>)
    requires
        within(a, b),
        within(c, d),
    ensures
        within(a + c, b + d),
{
    let p = choose|at: Seq<int>| placed(a, b, at);
    let q = choose|at: Seq<int>| placed(c, d, at);
    let at = p + Seq::new(c.len(), |i: int| q[i] + b.len());
    assert forall|i: int| 0 <= i < (a + c).len() implies 0 <= #[trigger] at[i] < (b + d).len() && (a
        + c)[i] == (b + d)[at[i]] by {
        if i >= a.len() {
            assert(0 <= q[i - a.len()] < d.len());
        } else {
            assert(0 <= p[i] < b.len());
        }
    }
    assert forall|i: int, j: int| 0 <= i < j < (a + c).len() implies #[trigger] at[i]
        < #[trigger] at[j] by {
        if i >= a.len() {
            assert(q[i - a.len()] < q[j - a.len()]);
        } else if j < a.len() {
            assert(p[i] < p[j]);
        } else {
            assert(0 <= p[i] < b.len());
            assert(0 <= q[j - a.len()] < d.len());
        }
    }
    assert(placed(a + c, b + d, at));
}

proof fn lemma_storage_within(m: MetaModel, it: ItemInfoModel)
    ensures
        within(storage_findings(m, it, false), storage_findings(m, it, true)),
{
    let id = Some(it.id);
    let last = found(
        it.protection_index != 0,
        "7.2.1.8",
        id,
        "MIAF image item references item protection"@,
    );
    lemma_within_same(last);
    match m.location(it.id) {
        Some(loc) => {
            let head = found(
                is_coded_type(it.item_type) && loc.construction_method != 0,
                "7.2.1.7",
                id,
                "coded image item uses construction_method "@ + decimal_chars(
                    loc.construction_method as nat,
                ),
            ) + found(
                is_derived_type(it.item_type) && loc.construction_method > 1,
                "7.2.1.7",
                id,
                "derived image item uses construction_method 2"@,
            );
            let text = "data_reference_index "@ + decimal_chars(loc.data_reference_index as nat)
                + " (shall be 0)"@;
            let more = found(true && loc.data_reference_index != 0, "8.2.1", id, text);
            let none = found(false && loc.data_reference_index != 0, "8.2.1", id, text);
            assert(none =~= Seq::empty());
            lemma_within_same(head);
            lemma_within_none(more);
            lemma_within_both(head, head, none, more);
            lemma_within_both(head + none, head + more, last, last);
        },
        None => {
            lemma_within_same(storage_findings(m, it, false));
        },
    }
}

proof fn lemma_item_within(m: MetaModel, it: ItemInfoModel, profile: MiafProfile, t: Seq<char>)
    requires
        profile != MiafProfile::Miaf,
    ensures
        within(item_findings(m, it, MiafProfile::Miaf, t), item_findings(m, it, profile, t)),
{
    lemma_storage_within(m, it);
    let general = match item_properties(m, it.id) {
        Err(_) => found(true, "7.3.6", Some(it.id), t),
        Ok(p) => property_findings(m, it, p, MiafProfile::Miaf),
    };
    let special = match item_properties(m, it.id) {
        Err(_) => found(true, "7.3.6", Some(it.id), t),
        Ok(p) => property_findings(m, it, p, profile),
    };
    match item_properties(m, it.id) {
        Err(_) => lemma_within_same(general),
        Ok(p) => {
            let none = codec_findings(MiafProfile::Miaf, it.item_type, p, it.id);
            let more = codec_findings(profile, it.item_type, p, it.id);
            assert(none =~= Seq::empty());
            assert(general =~= general + none);
            lemma_within_same(general);
            lemma_within_none(more);
            lemma_within_both(general, general, none, more);
            assert(special =~= general + more);
        },
    }
    lemma_within_both(
        storage_findings(m, it, false),
        storage_findings(m, it, true),
        general,
        special,
    );
}

proof fn lemma_items_within(m: MetaModel, n: int, profile: MiafProfile, t: Seq<Seq<char>>)
    requires
        profile != MiafProfile::Miaf,
    ensures
        within(items_findings(m, n, MiafProfile::Miaf, t), items_findings(m, n, profile, t)),
    decreases n,
{
    if n <= 0 {
        lemma_within_same(items_findings(m, n, profile, t));
    } else {
        lemma_items_within(m, n - 1, profile, t);
        let it = m.items[n - 1];
        if it.image() {
            lemma_item_within(m, it, profile, t[n - 1]);
            lemma_within_both(
                items_findings(m, n - 1, MiafProfile::Miaf, t),
                items_findings(m, n - 1, profile, t),
                item_findings(m, it, MiafProfile::Miaf, t[n - 1]),
                item_findings(m, it, profile, t[n - 1]),
            );
        } else {
            lemma_within_same(Seq::empty());
            lemma_within_both(
                items_findings(m, n - 1, MiafProfile::Miaf, t),
                items_findings(m, n - 1, profile, t),
                Seq::empty(),
                Seq::empty(),
            );
        }
    }
}

/// A codec profile only adds to the general MIAF requirements: what a file violates
/// of those is, in order and with its messages, among what it violates of the
/// profile. So a file that conforms to a profile conforms to the general requirements.
#[verifier::rlimit(50)]
pub proof fn law_profiles_extend_miaf(f: FileModel, profile: MiafProfile, t: Refusals)
    ensures
        within(findings_of(f, MiafProfile::Miaf, t), findings_of(f, profile, t)),
        findings_of(f, profile, t).len() == 0 ==> findings_of(f, MiafProfile::Miaf, t).len() == 0,
{
    let general = findings_of(f, MiafProfile::Miaf, t);
    let special = findings_of(f, profile, t);
    lemma_within_same(general);
    if profile != MiafProfile::Miaf {
        if let Some(m) = f.meta {
            if let Some(p) = f.primary() {
                if p.image() {
                    let n = m.items.len() as int;
                    let head = primary_findings(m, p);
                    let (a, b) = (
                        items_findings(m, n, MiafProfile::Miaf, t.properties),
                        items_findings(m, n, profile, t.properties),
                    );
                    let steps = ladders_findings(m, n);
                    let (c, d) = match graph_of(f, p.id) {
                        Ok(root) => (
                            chain::derivation_findings(root, false),
                            chain::derivation_findings(root, true),
                        ),
                        Err(_) => (
                            found(true, "7.3.11.1", Some(p.id), t.derivation),
                            found(true, "7.3.11.1", Some(p.id), t.derivation),
                        ),
                    };
                    match graph_of(f, p.id) {
                        Ok(root) => chain::lemma_derivation_within(root),
                        Err(_) => lemma_within_same(c),
                    }
                    lemma_items_within(m, n, profile, t.properties);
                    lemma_within_same(head);
                    lemma_within_same(steps);
                    lemma_within_same(file_findings(f, m));
                    lemma_within_both(head, head, a, b);
                    lemma_within_both(head + a, head + b, steps, steps);
                    lemma_within_both(head + a + steps, head + b + steps, c, d);
                    lemma_within_both(
                        file_findings(f, m),
                        file_findings(f, m),
                        head + a + steps + c,
                        head + b + steps + d,
                    );
                }
            }
        }
    }
    let at = choose|at: Seq<int>| placed(general, special, at);
    if general.len() > 0 {
        assert(0 <= at[0] < special.len());
    }
}

/// Whether a check of the file comes upon no error: the properties of its images and
/// the derivation of its primary item can be read.
pub open spec fn readable(f: FileModel) -> bool {
    f.meta matches Some(m) ==> (f.primary() matches Some(p) ==> p.image() ==> {
        &&& forall|i: int|
            0 <= i < m.items.len() && m.items[i].image() ==> item_properties(
                m,
                (#[trigger] m.items[i]).id,
            ) is Ok
        &&& graph_of(f, p.id) is Ok
    })
}

/// Whether findings are the same but for the texts of errors, and those too where
/// `exact`.
pub open spec fn alike(a: Seq<Finding>, b: Seq<Finding>, exact: bool) -> bool {
    &&& a.len() == b.len()
    &&& forall|i: int|
        0 <= i < a.len() ==> (#[trigger] a[i]).clause == b[i].clause && a[i].item_id == b[i].item_id
            && (exact ==> a[i] == b[i])
}

proof fn lemma_items_alike(
    m: MetaModel,
    n: int,
    profile: MiafProfile,
    s: Seq<Seq<char>>,
    t: Seq<Seq<char>>,
    exact: bool,
)
    requires
        0 <= n <= m.items.len(),
        exact ==> forall|i: int|
            0 <= i < n && m.items[i].image() ==> item_properties(
                m,
                (#[trigger] m.items[i]).id,
            ) is Ok,
    ensures
        alike(items_findings(m, n, profile, s), items_findings(m, n, profile, t), exact),
    decreases n,
{
    if n > 0 {
        lemma_items_alike(m, n - 1, profile, s, t, exact);
        let it = m.items[n - 1];
        if it.image() {
            let (a, b) = (
                item_findings(m, it, profile, s[n - 1]),
                item_findings(m, it, profile, t[n - 1]),
            );
            assert(alike(a, b, exact));
        }
    }
}

/// The reports of a file under the general requirements and under a codec profile: the
/// violations of the first are, in order, by clause and item, among those of the
/// second; with their messages, when the checks come upon no error. (The text of an
/// error is that of the error itself, which contracts describe by its class.)
#[verifier::rlimit(60)]
pub proof fn law_reports_extend_miaf(
    f: FileModel,
    profile: MiafProfile,
    general: Seq<Finding>,
    special: Seq<Finding>,
) -> (at: Seq<int>)
    requires
        reports(f, MiafProfile::Miaf, general),
        reports(f, profile, special),
    ensures
        at.len() == general.len(),
        forall|i: int|
            0 <= i < general.len() ==> 0 <= #[trigger] at[i] < special.len() && general[i].clause
                == special[at[i]].clause && general[i].item_id == special[at[i]].item_id,
        forall|i: int, j: int| 0 <= i < j < general.len() ==> #[trigger] at[i] < #[trigger] at[j],
        readable(f) ==> placed(general, special, at),
{
    let s = choose|t: Refusals| #[trigger] told(f, t) && general == findings_of(
        f,
        MiafProfile::Miaf,
        t,
    );
    let t = choose|t: Refusals| #[trigger] told(f, t) && special == findings_of(f, profile, t);
    let other = findings_of(f, profile, s);
    law_profiles_extend_miaf(f, profile, s);
    if let Some(m) = f.meta {
        if let Some(p) = f.primary() {
            if p.image() {
                lemma_items_alike(
                    m,
                    m.items.len() as int,
                    profile,
                    s.properties,
                    t.properties,
                    readable(f),
                );
            }
        }
    }
    assert(alike(other, special, readable(f)));
    let at = choose|at: Seq<int>| placed(general, other, at);
    assert forall|i: int| 0 <= i < general.len() implies 0 <= #[trigger] at[i] < special.len()
        && general[i].clause == special[at[i]].clause && general[i].item_id
        == special[at[i]].item_id && (readable(f) ==> general[i] == special[at[i]]) by {
        assert(general[i] == other[at[i]]);
    }
    at
}

} // verus!
