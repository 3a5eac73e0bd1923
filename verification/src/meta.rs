//! The `meta` box tree model (ISO/IEC 14496-12 §8.11, ISO/IEC 23008-12 §6):
//! items and their locations, properties, references and entity groups.
use crate::boxes::{
    fourcc_eq, header_at, parse_box_header, parse_full_box, payload, payload_of, BoxHeader, FourCc,
};
use crate::bytes::{
    clone_vec, copy_of, copy_vec, option_bytes, option_text,
};
use crate::error::{outcome, ErrorKind, HeifError, Outcome, Result};
use crate::meta::parse::{
    dinf_of, grpl_of, hdlr_of, iinf_of, iloc_of, iprp_of, ipro_of, iref_of, parse_dinf, parse_grpl, parse_hdlr,
    parse_iinf, parse_iloc, parse_iprp, parse_ipro, parse_iref, parse_pitm, pitm_of,
};
use crate::tags;
use crate::text::{chars_of, concat, decimal};
use std::collections::HashSet;
use vstd::prelude::*;

pub mod laws;
pub mod parse;
pub mod reference;
pub mod round_trip;

verus! {

/// Upper bound on the number of items a `meta` box may declare.
pub const MAX_ITEMS: usize = 0x10_0000;

/// Upper bound on the number of properties in `ipco`.
pub const MAX_PROPERTIES: usize = 0x8000;

/// Upper bound on the number of `iref` boxes.
pub const MAX_REFERENCES: usize = 0x10_0000;

/// Upper bound on the number of entity groups.
pub const MAX_ENTITY_GROUPS: usize = 0x1_0000;

/// Item type of HEVC image items (HEIF Annex B.2.2.1.2).
pub const ITEM_TYPE_HVC1: FourCc = [0x68, 0x76, 0x63, 0x31];

/// Item type of HEVC image items using `hev1` sample-entry semantics
/// (parameter sets may ride in band); treated like `hvc1`.
pub const ITEM_TYPE_HEV1: FourCc = [0x68, 0x65, 0x76, 0x31];

/// Item type of HEVC tile items (Annex B.2.5).
pub const ITEM_TYPE_HVT1: FourCc = [0x68, 0x76, 0x74, 0x31];

/// Item type of layered HEVC image items (Annex B.2.2.1.3).
pub const ITEM_TYPE_LHV1: FourCc = [0x6c, 0x68, 0x76, 0x31];

/// Item type of AV1 image items (AVIF §2.1).
pub const ITEM_TYPE_AV01: FourCc = [0x61, 0x76, 0x30, 0x31];

/// Item type of AVC image items (Annex E).
pub const ITEM_TYPE_AVC1: FourCc = [0x61, 0x76, 0x63, 0x31];

/// Item type of JPEG image items (Annex H).
pub const ITEM_TYPE_JPEG: FourCc = [0x6a, 0x70, 0x65, 0x67];

/// Grid derived image item (§6.6.2.3).
pub const ITEM_TYPE_GRID: FourCc = [0x67, 0x72, 0x69, 0x64];

/// Overlay derived image item (§6.6.2.2).
pub const ITEM_TYPE_IOVL: FourCc = [0x69, 0x6f, 0x76, 0x6c];

/// Identity derived image item (§6.6.2.1).
pub const ITEM_TYPE_IDEN: FourCc = [0x69, 0x64, 0x65, 0x6e];

/// Tone-map derived image item (ISO/IEC 21496-1 gain maps).
pub const ITEM_TYPE_TMAP: FourCc = [0x74, 0x6d, 0x61, 0x70];

/// Exif metadata item (Annex A.2).
pub const ITEM_TYPE_EXIF: FourCc = [0x45, 0x78, 0x69, 0x66];

/// MIME-typed item (XMP = `application/rdf+xml`, Annex A.3).
pub const ITEM_TYPE_MIME: FourCc = [0x6d, 0x69, 0x6d, 0x65];

/// URI-typed item (IPTC, Annex A.5).
pub const ITEM_TYPE_URI: FourCc = [0x75, 0x72, 0x69, 0x20];

/// `hdlr` box contents.
#[derive(Debug, PartialEq, Eq)]
pub struct Handler {
    /// `handler_type` (`pict` for HEIF image collections).
    pub handler_type: FourCc,
    /// Human-readable `name` (may be empty).
    pub name: String,
}

/// Model of [`Handler`].
#[verifier::ext_equal]
pub struct HandlerModel {
    /// `handler_type` (`pict` for HEIF image collections).
    pub handler_type: FourCc,
    /// Human-readable `name` (may be empty).
    pub name: Seq<char>,
}

impl View for Handler {
    type V = HandlerModel;

    open spec fn view(&self) -> HandlerModel {
        HandlerModel {
            handler_type: self.handler_type,
            name: self.name@,
        }
    }
}

impl DeepView for Handler {
    type V = HandlerModel;

    open spec fn deep_view(&self) -> HandlerModel {
        self@
    }
}

impl Clone for Handler {
    fn clone(&self) -> (r: Self)
        ensures
            r@ == self@,
    {
        Handler {
            handler_type: self.handler_type,
            name: self.name.clone(),
        }
    }
}

/// One `infe` entry (ISO/IEC 14496-12 §8.11.6).
#[derive(Debug, PartialEq, Eq)]
pub struct ItemInfo {
    /// `item_ID`.
    pub id: u32,
    /// `infe` box version (2 or 3 are the HEIF-legal ones).
    pub version: u8,
    /// `infe` flags; bit 0 = hidden item (HEIF §6.4.2).
    pub flags: u32,
    /// `item_protection_index` (0 = unprotected).
    pub protection_index: u16,
    /// `item_type`.
    pub item_type: FourCc,
    /// `item_name`.
    pub name: String,
    /// `content_type` for `mime` items.
    pub content_type: Option<String>,
    /// `content_encoding` for `mime` items (empty string collapsed to `None`).
    pub content_encoding: Option<String>,
    /// `item_uri_type` for `uri ` items.
    pub item_uri_type: Option<String>,
}

/// Model of [`ItemInfo`].
#[verifier::ext_equal]
pub struct ItemInfoModel {
    /// `item_ID`.
    pub id: u32,
    /// `infe` box version (2 or 3 are the HEIF-legal ones).
    pub version: u8,
    /// `infe` flags; bit 0 = hidden item (HEIF §6.4.2).
    pub flags: u32,
    /// `item_protection_index` (0 = unprotected).
    pub protection_index: u16,
    /// `item_type`.
    pub item_type: FourCc,
    /// `item_name`.
    pub name: Seq<char>,
    /// `content_type` for `mime` items.
    pub content_type: Option<Seq<char>>,
    /// `content_encoding` for `mime` items (empty string collapsed to `None`).
    pub content_encoding: Option<Seq<char>>,
    /// `item_uri_type` for `uri ` items.
    pub item_uri_type: Option<Seq<char>>,
}

impl View for ItemInfo {
    type V = ItemInfoModel;

    open spec fn view(&self) -> ItemInfoModel {
        ItemInfoModel {
            id: self.id,
            version: self.version,
            flags: self.flags,
            protection_index: self.protection_index,
            item_type: self.item_type,
            name: self.name@,
            content_type: option_text(self.content_type),
            content_encoding: option_text(self.content_encoding),
            item_uri_type: option_text(self.item_uri_type),
        }
    }
}

impl DeepView for ItemInfo {
    type V = ItemInfoModel;

    open spec fn deep_view(&self) -> ItemInfoModel {
        self@
    }
}

impl Clone for ItemInfo {
    fn clone(&self) -> (r: Self)
        ensures
            r@ == self@,
    {
        ItemInfo {
            id: self.id,
            version: self.version,
            flags: self.flags,
            protection_index: self.protection_index,
            item_type: self.item_type,
            name: self.name.clone(),
            content_type: match &self.content_type { Some(s) => Some(s.clone()), None => None },
            content_encoding: match &self.content_encoding { Some(s) => Some(s.clone()), None => None },
            item_uri_type: match &self.item_uri_type { Some(s) => Some(s.clone()), None => None },
        }
    }
}

/// One `iloc` extent.
#[derive(Clone, Copy, Debug, Default, PartialEq, Eq)]
pub struct Extent {
    /// `extent_index` (only meaningful for construction method 2; 0
    /// when the box carried `index_size == 0`, which implies 1).
    pub index: u64,
    /// `extent_offset` relative to the data origin.
    pub offset: u64,
    /// `extent_length`; 0 means "to the end of the source".
    pub length: u64,
}

/// One `iloc` item record.
#[derive(Debug, PartialEq, Eq)]
pub struct ItemLocation {
    /// `item_ID`.
    pub item_id: u32,
    /// `construction_method`: 0 = file offset, 1 = `idat` offset, 2 = item offset.
    pub construction_method: u8,
    /// `data_reference_index` (0 = this file).
    pub data_reference_index: u16,
    /// `base_offset` added to every extent offset.
    pub base_offset: u64,
    /// The extents, concatenated in order to form the item data.
    pub extents: Vec<Extent>,
}

/// Model of [`ItemLocation`].
#[verifier::ext_equal]
pub struct ItemLocationModel {
    /// `item_ID`.
    pub item_id: u32,
    /// `construction_method`: 0 = file offset, 1 = `idat` offset, 2 = item offset.
    pub construction_method: u8,
    /// `data_reference_index` (0 = this file).
    pub data_reference_index: u16,
    /// `base_offset` added to every extent offset.
    pub base_offset: u64,
    /// The extents, concatenated in order to form the item data.
    pub extents: Seq<Extent>,
}

impl View for ItemLocation {
    type V = ItemLocationModel;

    open spec fn view(&self) -> ItemLocationModel {
        ItemLocationModel {
            item_id: self.item_id,
            construction_method: self.construction_method,
            data_reference_index: self.data_reference_index,
            base_offset: self.base_offset,
            extents: self.extents@,
        }
    }
}

impl DeepView for ItemLocation {
    type V = ItemLocationModel;

    open spec fn deep_view(&self) -> ItemLocationModel {
        self@
    }
}

impl Clone for ItemLocation {
    fn clone(&self) -> (r: Self)
        ensures
            r@ == self@,
    {
        ItemLocation {
            item_id: self.item_id,
            construction_method: self.construction_method,
            data_reference_index: self.data_reference_index,
            base_offset: self.base_offset,
            extents: copy_vec(&self.extents),
        }
    }
}

/// One property box from `ipco`, kept raw.
#[derive(Debug, PartialEq, Eq)]
pub struct RawProperty {
    /// Box type.
    pub box_type: FourCc,
    /// Extended type for `uuid` properties.
    pub user_type: Option<[u8; 16]>,
    /// Box body (header excluded). For FullBox-derived properties the
    /// version/flags bytes are part of the body.
    pub body: Vec<u8>,
    /// Total box size in bytes (header included), as found in the file.
    pub box_size: usize,
}

/// Model of [`RawProperty`].
#[verifier::ext_equal]
pub struct RawPropertyModel {
    /// Box type.
    pub box_type: FourCc,
    /// Extended type for `uuid` properties.
    pub user_type: Option<[u8; 16]>,
    /// Box body (header excluded). For FullBox-derived properties the
    /// version/flags bytes are part of the body.
    pub body: Seq<u8>,
    /// Total box size in bytes (header included), as found in the file.
    pub box_size: usize,
}

impl View for RawProperty {
    type V = RawPropertyModel;

    open spec fn view(&self) -> RawPropertyModel {
        RawPropertyModel {
            box_type: self.box_type,
            user_type: self.user_type,
            body: self.body@,
            box_size: self.box_size,
        }
    }
}

impl DeepView for RawProperty {
    type V = RawPropertyModel;

    open spec fn deep_view(&self) -> RawPropertyModel {
        self@
    }
}

impl Clone for RawProperty {
    fn clone(&self) -> (r: Self)
        ensures
            r@ == self@,
    {
        RawProperty {
            box_type: self.box_type,
            user_type: self.user_type,
            body: copy_of(self.body.as_slice()),
            box_size: self.box_size,
        }
    }
}

/// One entry of an `ipma` association list.
#[derive(Clone, Copy, Debug, PartialEq, Eq)]
pub struct PropertyAssociation {
    /// 1-based index into `ipco`.
    pub index: u16,
    /// `essential` flag.
    pub essential: bool,
}

/// The association list of one item.
#[derive(Debug, PartialEq, Eq)]
pub struct ItemPropertyAssociations {
    /// `item_ID`.
    pub item_id: u32,
    /// Associations in file order. Index-0 placeholders ("no property")
    /// are dropped at parse time.
    pub entries: Vec<PropertyAssociation>,
}

/// Model of [`ItemPropertyAssociations`].
#[verifier::ext_equal]
pub struct ItemPropertyAssociationsModel {
    /// `item_ID`.
    pub item_id: u32,
    /// Associations in file order. Index-0 placeholders ("no property")
    /// are dropped at parse time.
    pub entries: Seq<PropertyAssociation>,
}

impl View for ItemPropertyAssociations {
    type V = ItemPropertyAssociationsModel;

    open spec fn view(&self) -> ItemPropertyAssociationsModel {
        ItemPropertyAssociationsModel {
            item_id: self.item_id,
            entries: self.entries@,
        }
    }
}

impl DeepView for ItemPropertyAssociations {
    type V = ItemPropertyAssociationsModel;

    open spec fn deep_view(&self) -> ItemPropertyAssociationsModel {
        self@
    }
}

impl Clone for ItemPropertyAssociations {
    fn clone(&self) -> (r: Self)
        ensures
            r@ == self@,
    {
        ItemPropertyAssociations {
            item_id: self.item_id,
            entries: copy_vec(&self.entries),
        }
    }
}

/// One `SingleItemTypeReferenceBox` from `iref`.
#[derive(Debug, PartialEq, Eq)]
pub struct ItemReference {
    /// The reference type (box type of the child box).
    pub reference_type: FourCc,
    /// `from_item_ID`.
    pub from_item_id: u32,
    /// `to_item_ID[]` in order.
    pub to_item_ids: Vec<u32>,
}

/// Model of [`ItemReference`].
#[verifier::ext_equal]
pub struct ItemReferenceModel {
    /// The reference type (box type of the child box).
    pub reference_type: FourCc,
    /// `from_item_ID`.
    pub from_item_id: u32,
    /// `to_item_ID[]` in order.
    pub to_item_ids: Seq<u32>,
}

impl View for ItemReference {
    type V = ItemReferenceModel;

    open spec fn view(&self) -> ItemReferenceModel {
        ItemReferenceModel {
            reference_type: self.reference_type,
            from_item_id: self.from_item_id,
            to_item_ids: self.to_item_ids@,
        }
    }
}

impl DeepView for ItemReference {
    type V = ItemReferenceModel;

    open spec fn deep_view(&self) -> ItemReferenceModel {
        self@
    }
}

impl Clone for ItemReference {
    fn clone(&self) -> (r: Self)
        ensures
            r@ == self@,
    {
        ItemReference {
            reference_type: self.reference_type,
            from_item_id: self.from_item_id,
            to_item_ids: copy_vec(&self.to_item_ids),
        }
    }
}

/// One `EntityToGroupBox` from `grpl`.
#[derive(Debug, PartialEq, Eq)]
pub struct EntityGroup {
    /// `grouping_type` (`altr`, `brst`, `eqiv`, `ster`, …).
    pub grouping_type: FourCc,
    /// `EntityToGroupBox` version (0 in ISO/IEC 14496-12 §8.18.3).
    pub version: u8,
    /// `EntityToGroupBox` flags (24 bits; meaning per grouping type).
    pub flags: u32,
    /// `group_id`.
    pub group_id: u32,
    /// `entity_id[]` (item ids or track ids).
    pub entity_ids: Vec<u32>,
}

/// Model of [`EntityGroup`].
#[verifier::ext_equal]
pub struct EntityGroupModel {
    /// `grouping_type` (`altr`, `brst`, `eqiv`, `ster`, …).
    pub grouping_type: FourCc,
    /// `EntityToGroupBox` version (0 in ISO/IEC 14496-12 §8.18.3).
    pub version: u8,
    /// `EntityToGroupBox` flags (24 bits; meaning per grouping type).
    pub flags: u32,
    /// `group_id`.
    pub group_id: u32,
    /// `entity_id[]` (item ids or track ids).
    pub entity_ids: Seq<u32>,
}

impl View for EntityGroup {
    type V = EntityGroupModel;

    open spec fn view(&self) -> EntityGroupModel {
        EntityGroupModel {
            grouping_type: self.grouping_type,
            version: self.version,
            flags: self.flags,
            group_id: self.group_id,
            entity_ids: self.entity_ids@,
        }
    }
}

impl DeepView for EntityGroup {
    type V = EntityGroupModel;

    open spec fn deep_view(&self) -> EntityGroupModel {
        self@
    }
}

impl Clone for EntityGroup {
    fn clone(&self) -> (r: Self)
        ensures
            r@ == self@,
    {
        EntityGroup {
            grouping_type: self.grouping_type,
            version: self.version,
            flags: self.flags,
            group_id: self.group_id,
            entity_ids: copy_vec(&self.entity_ids),
        }
    }
}

/// One `dref` entry.
#[derive(Debug, PartialEq, Eq)]
pub struct DataReference {
    /// Entry box type (`url ` / `urn `).
    pub entry_type: FourCc,
    /// `(flags & 1) == 1`: the data is in this file.
    pub self_contained: bool,
    /// `location` string for `url ` entries (empty when self-contained).
    pub location: String,
    /// `name` string for `urn ` entries.
    pub name: String,
}

/// Model of [`DataReference`].
#[verifier::ext_equal]
pub struct DataReferenceModel {
    /// Entry box type (`url ` / `urn `).
    pub entry_type: FourCc,
    /// `(flags & 1) == 1`: the data is in this file.
    pub self_contained: bool,
    /// `location` string for `url ` entries (empty when self-contained).
    pub location: Seq<char>,
    /// `name` string for `urn ` entries.
    pub name: Seq<char>,
}

impl View for DataReference {
    type V = DataReferenceModel;

    open spec fn view(&self) -> DataReferenceModel {
        DataReferenceModel {
            entry_type: self.entry_type,
            self_contained: self.self_contained,
            location: self.location@,
            name: self.name@,
        }
    }
}

impl DeepView for DataReference {
    type V = DataReferenceModel;

    open spec fn deep_view(&self) -> DataReferenceModel {
        self@
    }
}

impl Clone for DataReference {
    fn clone(&self) -> (r: Self)
        ensures
            r@ == self@,
    {
        DataReference {
            entry_type: self.entry_type,
            self_contained: self.self_contained,
            location: self.location.clone(),
            name: self.name.clone(),
        }
    }
}

/// Parsed file-level `meta` box.
#[derive(Debug, PartialEq, Eq)]
pub struct Meta {
    /// `meta` FullBox version.
    pub version: u8,
    /// `meta` FullBox flags.
    pub flags: u32,
    /// `hdlr`.
    pub handler: Option<Handler>,
    /// `pitm`.
    pub primary_item_id: Option<u32>,
    /// `iinf` entries in file order.
    pub items: Vec<ItemInfo>,
    /// `iloc` records in file order.
    pub locations: Vec<ItemLocation>,
    /// `ipco` properties; `properties[i]` has 1-based index `i + 1`.
    pub properties: Vec<RawProperty>,
    /// All `ipma` rows (across every `ipma` box) in file order.
    pub associations: Vec<ItemPropertyAssociations>,
    /// `iref` children in file order.
    pub references: Vec<ItemReference>,
    /// `grpl` entity groups.
    pub entity_groups: Vec<EntityGroup>,
    /// `dinf/dref` entries (1-based `data_reference_index` maps to
    /// `data_references[index - 1]`).
    pub data_references: Vec<DataReference>,
    /// `idat` payload.
    pub idat: Option<Vec<u8>>,
    /// Number of `sinf` protection schemes declared in `ipro`.
    pub protection_scheme_count: u16,
    /// `xml ` box payload (UTF-8), when present.
    pub xml: Option<String>,
    /// Box types encountered directly inside `meta`, in file order.
    pub child_box_types: Vec<FourCc>,
}

/// Model of [`Meta`].
#[verifier::ext_equal]
pub struct MetaModel {
    /// `meta` FullBox version.
    pub version: u8,
    /// `meta` FullBox flags.
    pub flags: u32,
    /// `hdlr`.
    pub handler: Option<HandlerModel>,
    /// `pitm`.
    pub primary_item_id: Option<u32>,
    /// `iinf` entries in file order.
    pub items: Seq<ItemInfoModel>,
    /// `iloc` records in file order.
    pub locations: Seq<ItemLocationModel>,
    /// `ipco` properties; `properties[i]` has 1-based index `i + 1`.
    pub properties: Seq<RawPropertyModel>,
    /// All `ipma` rows (across every `ipma` box) in file order.
    pub associations: Seq<ItemPropertyAssociationsModel>,
    /// `iref` children in file order.
    pub references: Seq<ItemReferenceModel>,
    /// `grpl` entity groups.
    pub entity_groups: Seq<EntityGroupModel>,
    /// `dinf/dref` entries (1-based `data_reference_index` maps to
    /// `data_references[index - 1]`).
    pub data_references: Seq<DataReferenceModel>,
    /// `idat` payload.
    pub idat: Option<Seq<u8>>,
    /// Number of `sinf` protection schemes declared in `ipro`.
    pub protection_scheme_count: u16,
    /// `xml ` box payload (UTF-8), when present.
    pub xml: Option<Seq<char>>,
    /// Box types encountered directly inside `meta`, in file order.
    pub child_box_types: Seq<FourCc>,
}

impl View for Meta {
    type V = MetaModel;

    open spec fn view(&self) -> MetaModel {
        MetaModel {
            version: self.version,
            flags: self.flags,
            handler: self.handler.deep_view(),
            primary_item_id: self.primary_item_id,
            items: self.items.deep_view(),
            locations: self.locations.deep_view(),
            properties: self.properties.deep_view(),
            associations: self.associations.deep_view(),
            references: self.references.deep_view(),
            entity_groups: self.entity_groups.deep_view(),
            data_references: self.data_references.deep_view(),
            idat: option_bytes(self.idat),
            protection_scheme_count: self.protection_scheme_count,
            xml: option_text(self.xml),
            child_box_types: self.child_box_types@,
        }
    }
}

impl DeepView for Meta {
    type V = MetaModel;

    open spec fn deep_view(&self) -> MetaModel {
        self@
    }
}

impl Clone for Meta {
    fn clone(&self) -> (r: Self)
        ensures
            r@ == self@,
    {
        Meta {
            version: self.version,
            flags: self.flags,
            handler: match &self.handler { Some(v) => Some(v.clone()), None => None },
            primary_item_id: self.primary_item_id,
            items: clone_vec(&self.items),
            locations: clone_vec(&self.locations),
            properties: clone_vec(&self.properties),
            associations: clone_vec(&self.associations),
            references: clone_vec(&self.references),
            entity_groups: clone_vec(&self.entity_groups),
            data_references: clone_vec(&self.data_references),
            idat: match &self.idat { Some(v) => Some(copy_of(v.as_slice())), None => None },
            protection_scheme_count: self.protection_scheme_count,
            xml: match &self.xml { Some(s) => Some(s.clone()), None => None },
            child_box_types: copy_vec(&self.child_box_types),
        }
    }
}

/// `c` with an ASCII capital letter made small.
pub open spec fn ascii_lower(c: char) -> char {
    if 65 <= c as u32 <= 90 {
        ((c as u32 + 32) as u32) as char
    } else {
        c
    }
}

/// Whether two texts are the same but for the case of ASCII letters.
pub open spec fn same_ignoring_case(a: Seq<char>, b: Seq<char>) -> bool {
    a.len() == b.len() && forall|i: int|
        0 <= i < a.len() ==> ascii_lower(#[trigger] a[i]) == ascii_lower(b[i])
}

fn lower(c: char) -> (r: char)
    ensures
        r == ascii_lower(c),
{
    if 'A' <= c && c <= 'Z' {
        ((c as u32 + 32) as u8) as char
    } else {
        c
    }
}

/// Whether two texts are the same but for the case of ASCII letters.
pub(crate) fn eq_ignoring_case(a: &str, b: &str) -> (r: bool)
    ensures
        r == same_ignoring_case(a@, b@),
{
    let x: Vec<char> = chars_of(a);
    let y: Vec<char> = chars_of(b);
    if x.len() != y.len() {
        return false;
    }
    for i in 0..x.len()
        invariant
            x@.len() == y@.len(),
            x@ == a@,
            y@ == b@,
            forall|j: int| 0 <= j < i ==> ascii_lower(#[trigger] x@[j]) == ascii_lower(y@[j]),
    {
        if lower(x[i]) != lower(y[i]) {
            assert(ascii_lower(x@[i as int]) != ascii_lower(y@[i as int]));
            return false;
        }
    }
    true
}

/// Whether the item type is one of the derived image types.
pub open spec fn is_derived_type(t: FourCc) -> bool {
    t == ITEM_TYPE_GRID || t == ITEM_TYPE_IOVL || t == ITEM_TYPE_IDEN || t == ITEM_TYPE_TMAP
}

/// Whether the item type is one of the coded image types.
pub open spec fn is_coded_type(t: FourCc) -> bool {
    t == ITEM_TYPE_HVC1 || t == ITEM_TYPE_HEV1 || t == ITEM_TYPE_HVT1 || t == ITEM_TYPE_LHV1 || t
        == ITEM_TYPE_AV01 || t == ITEM_TYPE_AVC1 || t == ITEM_TYPE_JPEG
}

impl ItemInfoModel {
    /// Whether the item is hidden.
    pub open spec fn hidden(self) -> bool {
        self.flags % 2 == 1
    }

    /// Whether the item is a coded or derived image.
    pub open spec fn image(self) -> bool {
        is_coded_type(self.item_type) || is_derived_type(self.item_type)
    }

    /// Whether the item is an XMP packet.
    pub open spec fn xmp(self) -> bool {
        self.item_type == ITEM_TYPE_MIME && (self.content_type matches Some(c)
            && same_ignoring_case(c, "application/rdf+xml"@))
    }
}

impl ItemInfo {
    /// HEIF §6.4.2: `(flags & 1) == 1` marks a hidden image item.
    pub fn is_hidden(&self) -> (r: bool)
        ensures
            r == self@.hidden(),
    {
        self.flags % 2 == 1
    }

    /// `true` for the derived image item types this crate knows.
    pub fn is_derived_image(&self) -> (r: bool)
        ensures
            r == is_derived_type(self.item_type),
    {
        fourcc_eq(&self.item_type, &ITEM_TYPE_GRID) || fourcc_eq(&self.item_type, &ITEM_TYPE_IOVL)
            || fourcc_eq(&self.item_type, &ITEM_TYPE_IDEN) || fourcc_eq(
            &self.item_type,
            &ITEM_TYPE_TMAP,
        )
    }

    /// `true` for the coded image item types this crate knows.
    pub fn is_coded_image(&self) -> (r: bool)
        ensures
            r == is_coded_type(self.item_type),
    {
        fourcc_eq(&self.item_type, &ITEM_TYPE_HVC1) || fourcc_eq(&self.item_type, &ITEM_TYPE_HEV1)
            || fourcc_eq(&self.item_type, &ITEM_TYPE_HVT1) || fourcc_eq(
            &self.item_type,
            &ITEM_TYPE_LHV1,
        ) || fourcc_eq(&self.item_type, &ITEM_TYPE_AV01) || fourcc_eq(
            &self.item_type,
            &ITEM_TYPE_AVC1,
        ) || fourcc_eq(&self.item_type, &ITEM_TYPE_JPEG)
    }

    /// `true` for coded or derived image items.
    pub fn is_image(&self) -> (r: bool)
        ensures
            r == self@.image(),
    {
        self.is_coded_image() || self.is_derived_image()
    }

    /// `true` when this is an XMP packet (`mime` + `application/rdf+xml`).
    pub fn is_xmp(&self) -> (r: bool)
        ensures
            r == self@.xmp(),
    {
        if !fourcc_eq(&self.item_type, &ITEM_TYPE_MIME) {
            return false;
        }
        match &self.content_type {
            Some(c) => eq_ignoring_case(c.as_str(), "application/rdf+xml"),
            None => false,
        }
    }
}

/// Sum of the extent lengths, held to the largest `u64`.
pub open spec fn extent_sum(e: Seq<Extent>) -> u64
    decreases e.len(),
{
    if e.len() == 0 {
        0
    } else if extent_sum(e.drop_last()) + e.last().length > u64::MAX {
        u64::MAX
    } else {
        (extent_sum(e.drop_last()) + e.last().length) as u64
    }
}

impl ItemLocation {
    /// Sum of the explicit extent lengths (0-length extents excluded).
    pub fn declared_size(&self) -> (r: u64)
        ensures
            r == extent_sum(self@.extents),
    {
        let ghost all = self.extents@;
        let mut sum: u64 = 0;
        proof {
            assert(all.take(0) =~= Seq::empty());
        }
        for i in 0..self.extents.len()
            invariant
                all == self.extents@,
                sum == extent_sum(all.take(i as int)),
        {
            proof {
                assert(all.take(i + 1).drop_last() =~= all.take(i as int));
            }
            sum = sum.saturating_add(self.extents[i].length);
        }
        proof {
            assert(all.take(all.len() as int) =~= all);
        }
        sum
    }
}

impl Default for Meta {
    fn default() -> (r: Self)
        ensures
            r@ == MetaModel::empty(0, 0),
    {
        let r: Meta = Meta {
            version: 0,
            flags: 0,
            handler: None,
            primary_item_id: None,
            items: Vec::new(),
            locations: Vec::new(),
            properties: Vec::new(),
            associations: Vec::new(),
            references: Vec::new(),
            entity_groups: Vec::new(),
            data_references: Vec::new(),
            idat: None,
            protection_scheme_count: 0,
            xml: None,
            child_box_types: Vec::new(),
        };
        proof {
            assert(r@ =~= MetaModel::empty(0, 0));
        }
        r
    }
}

/// The first item of the given id.
pub open spec fn first_item(items: Seq<ItemInfoModel>, id: u32) -> Option<ItemInfoModel>
    decreases items.len(),
{
    if items.len() == 0 {
        None
    } else if items[0].id == id {
        Some(items[0])
    } else {
        first_item(items.drop_first(), id)
    }
}

/// The first location of the given item.
pub open spec fn first_location(l: Seq<ItemLocationModel>, id: u32) -> Option<ItemLocationModel>
    decreases l.len(),
{
    if l.len() == 0 {
        None
    } else if l[0].item_id == id {
        Some(l[0])
    } else {
        first_location(l.drop_first(), id)
    }
}

/// The association entries of the given item, row after row.
pub open spec fn entries_of(rows: Seq<ItemPropertyAssociationsModel>, id: u32) -> Seq<
    PropertyAssociation,
>
    decreases rows.len(),
{
    if rows.len() == 0 {
        Seq::empty()
    } else if rows.last().item_id == id {
        entries_of(rows.drop_last(), id) + rows.last().entries
    } else {
        entries_of(rows.drop_last(), id)
    }
}

/// The entries with the properties they name. An entry that names none (index 0
/// or past the end) is passed over.
pub open spec fn named_properties(
    entries: Seq<PropertyAssociation>,
    props: Seq<RawPropertyModel>,
) -> Seq<(u16, RawPropertyModel, bool)>
    decreases entries.len(),
{
    if entries.len() == 0 {
        Seq::empty()
    } else {
        let before = named_properties(entries.drop_last(), props);
        let e = entries.last();
        if 1 <= e.index <= props.len() {
            before.push((e.index, props[e.index - 1], e.essential))
        } else {
            before
        }
    }
}

/// The first of `v` whose property has the given type.
pub open spec fn first_of_type(v: Seq<(u16, RawPropertyModel, bool)>, t: FourCc) -> Option<
    RawPropertyModel,
>
    decreases v.len(),
{
    if v.len() == 0 {
        None
    } else if v[0].1.box_type == t {
        Some(v[0].1)
    } else {
        first_of_type(v.drop_first(), t)
    }
}

/// Targets of the references of type `t` from `from`.
pub open spec fn targets(refs: Seq<ItemReferenceModel>, from: u32, t: FourCc) -> Seq<u32>
    decreases refs.len(),
{
    if refs.len() == 0 {
        Seq::empty()
    } else if refs.last().from_item_id == from && refs.last().reference_type == t {
        targets(refs.drop_last(), from, t) + refs.last().to_item_ids
    } else {
        targets(refs.drop_last(), from, t)
    }
}

/// Sources of the references of type `t` that target `to`.
pub open spec fn sources(refs: Seq<ItemReferenceModel>, to: u32, t: FourCc) -> Seq<u32>
    decreases refs.len(),
{
    if refs.len() == 0 {
        Seq::empty()
    } else if refs.last().reference_type == t && refs.last().to_item_ids.contains(to) {
        sources(refs.drop_last(), to, t).push(refs.last().from_item_id)
    } else {
        sources(refs.drop_last(), to, t)
    }
}

/// The groups of type `t` that hold `id`.
pub open spec fn groups_with(groups: Seq<EntityGroupModel>, id: u32, t: FourCc) -> Seq<
    EntityGroupModel,
>
    decreases groups.len(),
{
    if groups.len() == 0 {
        Seq::empty()
    } else if groups.last().grouping_type == t && groups.last().entity_ids.contains(id) {
        groups_with(groups.drop_last(), id, t).push(groups.last())
    } else {
        groups_with(groups.drop_last(), id, t)
    }
}

/// The models of a list of references to groups.
pub open spec fn group_views(v: Seq<&EntityGroup>) -> Seq<EntityGroupModel> {
    Seq::new(v.len(), |i: int| v[i]@)
}

/// The models of a list of named properties.
pub open spec fn named_views(v: Seq<(u16, &RawProperty, bool)>) -> Seq<
    (u16, RawPropertyModel, bool),
> {
    Seq::new(v.len(), |i: int| (v[i].0, v[i].1@, v[i].2))
}

/// Whether no two items have the same id.
pub open spec fn ids_distinct(items: Seq<ItemInfoModel>) -> bool {
    forall|i: int, j: int| 0 <= i < j < items.len() ==> (#[trigger] items[i]).id != (
    #[trigger] items[j]).id
}

/// Whether every association names a property of a list of `n`.
pub open spec fn indices_inside(rows: Seq<ItemPropertyAssociationsModel>, n: nat) -> bool {
    forall|i: int, j: int|
        0 <= i < rows.len() && 0 <= j < rows[i].entries.len() ==> (
        #[trigger] rows[i].entries[j]).index <= n
}

impl MetaModel {
    /// A `meta` box without children.
    pub open spec fn empty(version: u8, flags: u32) -> MetaModel {
        MetaModel {
            version,
            flags,
            handler: None,
            primary_item_id: None,
            items: Seq::empty(),
            locations: Seq::empty(),
            properties: Seq::empty(),
            associations: Seq::empty(),
            references: Seq::empty(),
            entity_groups: Seq::empty(),
            data_references: Seq::empty(),
            idat: None,
            protection_scheme_count: 0,
            xml: None,
            child_box_types: Seq::empty(),
        }
    }

    /// Item ids are unique and associations name existing properties.
    pub open spec fn consistent(self) -> bool {
        ids_distinct(self.items) && indices_inside(self.associations, self.properties.len())
    }

    /// The item of the given id.
    pub open spec fn item(self, id: u32) -> Option<ItemInfoModel> {
        first_item(self.items, id)
    }

    /// The location of the given item.
    pub open spec fn location(self, id: u32) -> Option<ItemLocationModel> {
        first_location(self.locations, id)
    }

    /// The properties of the given item, in association order.
    pub open spec fn properties_of(self, id: u32) -> Seq<(u16, RawPropertyModel, bool)> {
        named_properties(entries_of(self.associations, id), self.properties)
    }

    /// Targets of the references of type `t` from `from`.
    pub open spec fn references_from(self, from: u32, t: FourCc) -> Seq<u32> {
        targets(self.references, from, t)
    }

    /// Sources of the references of type `t` to `to`.
    pub open spec fn references_to(self, to: u32, t: FourCc) -> Seq<u32> {
        sources(self.references, to, t)
    }

    /// Whether the data of a location is in this file.
    pub open spec fn self_contained(self, loc: ItemLocationModel) -> bool {
        let n = loc.data_reference_index;
        n == 0 || (n <= self.data_references.len() && self.data_references[n - 1].self_contained)
    }
}

/// The `meta` box after its child `h` with payload `p`, and the `ipma` boxes
/// seen so far.
pub open spec fn with_child(me: MetaModel, seen: Seq<(u8, u32)>, t: FourCc, p: Seq<u8>) -> Outcome<
    (MetaModel, Seq<(u8, u32)>),
> {
    let me = MetaModel { child_box_types: me.child_box_types.push(t), ..me };
    if t == tags::HDLR {
        match hdlr_of(p) {
            Ok(x) => Ok((MetaModel { handler: Some(x), ..me }, seen)),
            Err(e) => Err(e),
        }
    } else if t == tags::PITM {
        match pitm_of(p) {
            Ok(x) => Ok((MetaModel { primary_item_id: Some(x), ..me }, seen)),
            Err(e) => Err(e),
        }
    } else if t == tags::IINF {
        match iinf_of(p) {
            Ok(x) => Ok((MetaModel { items: x, ..me }, seen)),
            Err(e) => Err(e),
        }
    } else if t == tags::ILOC {
        match iloc_of(p) {
            Ok(x) => Ok((MetaModel { locations: x, ..me }, seen)),
            Err(e) => Err(e),
        }
    } else if t == tags::IREF {
        match iref_of(p) {
            Ok(x) => Ok((MetaModel { references: x, ..me }, seen)),
            Err(e) => Err(e),
        }
    } else if t == tags::IPRP {
        match iprp_of(p, seen) {
            Ok((props, rows, now)) => Ok(
                (MetaModel { properties: props, associations: rows, ..me }, now),
            ),
            Err(e) => Err(e),
        }
    } else if t == tags::IDAT {
        Ok((MetaModel { idat: Some(p), ..me }, seen))
    } else if t == tags::GRPL {
        match grpl_of(p) {
            Ok(x) => Ok((MetaModel { entity_groups: x, ..me }, seen)),
            Err(e) => Err(e),
        }
    } else if t == tags::DINF {
        match dinf_of(p) {
            Ok(x) => Ok((MetaModel { data_references: x, ..me }, seen)),
            Err(e) => Err(e),
        }
    } else if t == tags::IPRO {
        match ipro_of(p) {
            Ok(x) => Ok((MetaModel { protection_scheme_count: x, ..me }, seen)),
            Err(e) => Err(e),
        }
    } else if t == tags::XML {
        match crate::boxes::full_box(p) {
            Some((_, _, x)) => Ok(
                (MetaModel { xml: Some(crate::boxes::utf8_lossy(x)), ..me }, seen),
            ),
            None => Err(ErrorKind::Invalid),
        }
    } else {
        Ok((me, seen))
    }
}

/// The `meta` box once the children from `pos` on are read too.
pub open spec fn children_from(
    body: Seq<u8>,
    pos: int,
    me: MetaModel,
    seen: Seq<(u8, u32)>,
) -> Outcome<MetaModel>
    decreases body.len() - pos,
{
    if pos >= body.len() {
        Ok(me)
    } else {
        match header_at(body, pos) {
            None => Err(ErrorKind::Invalid),
            Some(h) => if !(pos < h.end_at() <= body.len()) {
                Err(ErrorKind::Invalid)
            } else {
                match with_child(me, seen, h.box_type, payload_of(body, h)) {
                    Err(e) => Err(e),
                    Ok((next, now)) => children_from(body, h.end_at(), next, now),
                }
            },
        }
    }
}

/// The `meta` box a payload holds.
pub open spec fn meta_of(p: Seq<u8>) -> Outcome<MetaModel> {
    match crate::boxes::full_box(p) {
        None => Err(ErrorKind::Invalid),
        Some((version, flags, body)) => if version != 0 {
            Err(ErrorKind::Invalid)
        } else {
            match children_from(body, 0, MetaModel::empty(version, flags), Seq::empty()) {
                Err(e) => Err(e),
                Ok(me) => if me.consistent() {
                    Ok(me)
                } else {
                    Err(ErrorKind::Invalid)
                },
            }
        },
    }
}

/// A `meta` box that parses is consistent.
pub proof fn lemma_meta_consistent(p: Seq<u8>)
    ensures
        meta_of(p) matches Ok(m) ==> m.consistent(),
{
}

fn read_child(me: &mut Meta, seen: &mut Vec<(u8, u32)>, t: FourCc, p: &[u8]) -> (r: Result<()>)
    ensures
        match r {
            Ok(_) => with_child(old(me)@, old(seen)@, t, p@) == Ok::<
                (MetaModel, Seq<(u8, u32)>),
                ErrorKind,
            >((final(me)@, final(seen)@)),
            Err(e) => with_child(old(me)@, old(seen)@, t, p@) == Err::<
                (MetaModel, Seq<(u8, u32)>),
                ErrorKind,
            >(e.kind()),
        },
{
    me.child_box_types.push(t);
    if fourcc_eq(&t, &tags::HDLR) {
        let x: Handler = parse_hdlr(p)?;
        me.handler = Some(x);
    } else if fourcc_eq(&t, &tags::PITM) {
        let x: u32 = parse_pitm(p)?;
        me.primary_item_id = Some(x);
    } else if fourcc_eq(&t, &tags::IINF) {
        me.items = parse_iinf(p)?;
    } else if fourcc_eq(&t, &tags::ILOC) {
        me.locations = parse_iloc(p)?;
    } else if fourcc_eq(&t, &tags::IREF) {
        me.references = parse_iref(p)?;
    } else if fourcc_eq(&t, &tags::IPRP) {
        let (props, rows) = parse_iprp(p, seen)?;
        me.properties = props;
        me.associations = rows;
    } else if fourcc_eq(&t, &tags::IDAT) {
        me.idat = Some(copy_of(p));
    } else if fourcc_eq(&t, &tags::GRPL) {
        me.entity_groups = parse_grpl(p)?;
    } else if fourcc_eq(&t, &tags::DINF) {
        me.data_references = parse_dinf(p)?;
    } else if fourcc_eq(&t, &tags::IPRO) {
        me.protection_scheme_count = parse_ipro(p)?;
    } else if fourcc_eq(&t, &tags::XML) {
        let (_, _, x) = parse_full_box(p)?;
        me.xml = Some(crate::boxes::lossy_text(x));
    }
    Ok(())
}

impl Meta {
    /// Parse a `meta` box payload (the FullBox header included).
    pub fn parse(meta_payload: &[u8]) -> (r: Result<Self>)
        ensures
            outcome(r) == meta_of(meta_payload@),
    {
        let (version, flags, body) = parse_full_box(meta_payload)?;
        if version != 0 {
            let v: String = decimal(version as u64);
            return Err(
                HeifError::invalid(
                    concat(&["meta box version ", v.as_str(), " (only 0 is defined)"]),
                ),
            );
        }
        let mut me: Meta = Meta::default();
        me.flags = flags;
        let mut seen: Vec<(u8, u32)> = Vec::new();
        let ghost goal = children_from(body@, 0, MetaModel::empty(0, flags), Seq::empty());
        proof {
            assert(me@ =~= MetaModel::empty(0, flags));
        }
        let mut cursor: usize = 0;
        while cursor < body.len()
            invariant
                crate::boxes::full_box(meta_payload@) == Some((0u8, flags, body@)),
                goal == children_from(body@, 0, MetaModel::empty(0, flags), Seq::empty()),
                goal == children_from(body@, cursor as int, me@, seen@),
            decreases body@.len() - cursor,
        {
            let h: BoxHeader = parse_box_header(body, cursor)?;
            proof {
                crate::boxes::lemma_header_inside(body@, cursor as int);
            }
            read_child(&mut me, &mut seen, h.box_type, payload(body, &h))?;
            cursor = h.end();
        }
        me.validate()?;
        Ok(me)
    }

    fn validate(&self) -> (r: Result<()>)
        ensures
            match r {
                Ok(_) => self@.consistent(),
                Err(e) => e.kind() == ErrorKind::Invalid && !self@.consistent(),
            },
    {
        // Unique item ids (§8.11.6: item_ID is unique within the box).
        let mut ids: HashSet<u32> = HashSet::new();
        for i in 0..self.items.len()
            invariant
                forall|x: u32|
                    ids@.contains(x) <==> exists|k: int|
                        0 <= k < i && (#[trigger] self@.items[k]).id == x,
                forall|k: int, l: int|
                    0 <= k < l < i ==> (#[trigger] self@.items[k]).id != (
                    #[trigger] self@.items[l]).id,
        {
            let id: u32 = self.items[i].id;
            assert(self@.items[i as int].id == id);
            if !ids.insert(id) {
                let n: String = decimal(id as u64);
                return Err(
                    HeifError::invalid(concat(&["duplicate item_ID ", n.as_str(), " in iinf"])),
                );
            }
        }
        // ipma indices must address an existing property.
        let count: usize = self.properties.len();
        for i in 0..self.associations.len()
            invariant
                count == self@.properties.len(),
                ids_distinct(self@.items),
                forall|k: int, j: int|
                    0 <= k < i && 0 <= j < self@.associations[k].entries.len() ==> (
                    #[trigger] self@.associations[k].entries[j]).index <= count,
        {
            let a: &ItemPropertyAssociations = &self.associations[i];
            assert(self@.associations[i as int] == a@);
            for j in 0..a.entries.len()
                invariant
                    a@ == self@.associations[i as int],
                    0 <= i < self@.associations.len(),
                    count == self@.properties.len(),
                    forall|k: int| 0 <= k < j ==> (#[trigger] a@.entries[k]).index <= count,
            {
                let index: u16 = a.entries[j].index;
                if index as usize > count {
                    let id: String = decimal(a.item_id as u64);
                    let n: String = decimal(index as u64);
                    let c: String = decimal(count as u64);
                    assert(self@.associations[i as int].entries[j as int].index > count);
                    return Err(
                        HeifError::invalid(
                            concat(
                                &[
                                    "ipma: item ",
                                    id.as_str(),
                                    " references property index ",
                                    n.as_str(),
                                    " but ipco holds ",
                                    c.as_str(),
                                ],
                            ),
                        ),
                    );
                }
            }
        }
        Ok(())
    }

    /// Look up an item by id.
    pub fn item(&self, id: u32) -> (r: Option<&ItemInfo>)
        ensures
            match r {
                Some(x) => self@.item(id) == Some(x@),
                None => self@.item(id) is None,
            },
    {
        let ghost all = self@.items;
        proof {
            assert(all.skip(0) =~= all);
        }
        for i in 0..self.items.len()
            invariant
                all == self@.items,
                first_item(all, id) == first_item(all.skip(i as int), id),
        {
            proof {
                assert(all.skip(i as int)[0] == self.items@[i as int]@);
                assert(all.skip(i as int).drop_first() =~= all.skip(i as int + 1));
            }
            if self.items[i].id == id {
                return Some(&self.items[i]);
            }
        }
        None
    }

    /// Look up an item location by id.
    pub fn location(&self, id: u32) -> (r: Option<&ItemLocation>)
        ensures
            match r {
                Some(x) => self@.location(id) == Some(x@),
                None => self@.location(id) is None,
            },
    {
        let ghost all = self@.locations;
        proof {
            assert(all.skip(0) =~= all);
        }
        for i in 0..self.locations.len()
            invariant
                all == self@.locations,
                first_location(all, id) == first_location(all.skip(i as int), id),
        {
            proof {
                assert(all.skip(i as int)[0] == self.locations@[i as int]@);
                assert(all.skip(i as int).drop_first() =~= all.skip(i as int + 1));
            }
            if self.locations[i].item_id == id {
                return Some(&self.locations[i]);
            }
        }
        None
    }

    /// The primary item's info, when `pitm` names an existing item.
    pub fn primary_item(&self) -> (r: Option<&ItemInfo>)
        ensures
            match r {
                Some(x) => self@.primary_item_id matches Some(id) && self@.item(id) == Some(x@),
                None => self@.primary_item_id matches Some(id) ==> self@.item(id) is None,
            },
    {
        match self.primary_item_id {
            Some(id) => self.item(id),
            None => None,
        }
    }

    /// Properties associated with `item_id`, in `ipma` order, as
    /// `(1-based index, property, essential)`. Rows from several `ipma`
    /// boxes for the same item are concatenated in file order.
    pub fn properties_of(&self, item_id: u32) -> (r: Vec<(u16, &RawProperty, bool)>)
        ensures
            named_views(r@) == self@.properties_of(item_id),
    {
        let entries: Vec<PropertyAssociation> = self.associations_of(item_id);
        let ghost all = entries@;
        let ghost props = self@.properties;
        let mut out: Vec<(u16, &RawProperty, bool)> = Vec::new();
        proof {
            assert(all.take(0) =~= Seq::empty());
            assert(named_views(out@) =~= Seq::empty());
        }
        for i in 0..entries.len()
            invariant
                all == entries@,
                props == self@.properties,
                named_views(out@) == named_properties(all.take(i as int), props),
        {
            proof {
                assert(all.take(i + 1).drop_last() =~= all.take(i as int));
            }
            let e: PropertyAssociation = entries[i];
            let ghost before = named_views(out@);
            if 1 <= e.index && e.index as usize <= self.properties.len() {
                out.push((e.index, &self.properties[e.index as usize - 1], e.essential));
                proof {
                    assert(named_views(out@) =~= before.push(
                        (e.index, props[e.index - 1], e.essential),
                    ));
                }
            }
        }
        proof {
            assert(all.take(all.len() as int) =~= all);
        }
        out
    }

    /// Raw association entries of an item, in `ipma` order.
    pub fn associations_of(&self, item_id: u32) -> (r: Vec<PropertyAssociation>)
        ensures
            r@ == entries_of(self@.associations, item_id),
    {
        let ghost all = self@.associations;
        let mut out: Vec<PropertyAssociation> = Vec::new();
        proof {
            assert(all.take(0) =~= Seq::empty());
        }
        for i in 0..self.associations.len()
            invariant
                all == self@.associations,
                out@ == entries_of(all.take(i as int), item_id),
        {
            let a: &ItemPropertyAssociations = &self.associations[i];
            proof {
                assert(all.take(i + 1).drop_last() =~= all.take(i as int));
                assert(all[i as int] == a@);
            }
            if a.item_id == item_id {
                let ghost before = out@;
                for j in 0..a.entries.len()
                    invariant
                        out@ =~= before + a.entries@.take(j as int),
                {
                    out.push(a.entries[j]);
                }
                proof {
                    assert(a.entries@.take(a.entries@.len() as int) =~= a.entries@);
                }
            }
        }
        proof {
            assert(all.take(all.len() as int) =~= all);
        }
        out
    }

    /// The first property of `box_type` associated with `item_id`.
    pub fn property_of(&self, item_id: u32, box_type: &FourCc) -> (r: Option<&RawProperty>)
        ensures
            match r {
                Some(x) => first_of_type(self@.properties_of(item_id), *box_type) == Some(x@),
                None => first_of_type(self@.properties_of(item_id), *box_type) is None,
            },
    {
        let v: Vec<(u16, &RawProperty, bool)> = self.properties_of(item_id);
        let ghost all = named_views(v@);
        proof {
            assert(all.skip(0) =~= all);
        }
        for i in 0..v.len()
            invariant
                all == named_views(v@),
                all == self@.properties_of(item_id),
                first_of_type(all, *box_type) == first_of_type(all.skip(i as int), *box_type),
        {
            proof {
                assert(all.skip(i as int)[0] == all[i as int]);
                assert(all.skip(i as int).drop_first() =~= all.skip(i as int + 1));
            }
            let x: &RawProperty = v[i].1;
            if fourcc_eq(&x.box_type, box_type) {
                assert(all[i as int].1 == x@);
                return Some(x);
            }
        }
        None
    }

    /// Targets of the references of `reference_type` whose source is
    /// `from`, in file order (HEIF §6.6.1 allows at most one `dimg` box
    /// per item; several boxes of other types are concatenated).
    pub fn references_from(&self, from: u32, reference_type: &FourCc) -> (r: Vec<u32>)
        ensures
            r@ == self@.references_from(from, *reference_type),
    {
        let ghost all = self@.references;
        let mut out: Vec<u32> = Vec::new();
        proof {
            assert(all.take(0) =~= Seq::empty());
        }
        for i in 0..self.references.len()
            invariant
                all == self@.references,
                out@ == targets(all.take(i as int), from, *reference_type),
        {
            let x: &ItemReference = &self.references[i];
            proof {
                assert(all.take(i + 1).drop_last() =~= all.take(i as int));
                assert(all[i as int] == x@);
            }
            if x.from_item_id == from && fourcc_eq(&x.reference_type, reference_type) {
                let ghost before = out@;
                for j in 0..x.to_item_ids.len()
                    invariant
                        out@ =~= before + x.to_item_ids@.take(j as int),
                {
                    out.push(x.to_item_ids[j]);
                }
                proof {
                    assert(x.to_item_ids@.take(x.to_item_ids@.len() as int) =~= x.to_item_ids@);
                }
            }
        }
        proof {
            assert(all.take(all.len() as int) =~= all);
        }
        out
    }

    /// Sources of the references of `reference_type` that target `to`,
    /// in file order.
    pub fn references_to(&self, to: u32, reference_type: &FourCc) -> (r: Vec<u32>)
        ensures
            r@ == self@.references_to(to, *reference_type),
    {
        let ghost all = self@.references;
        let mut out: Vec<u32> = Vec::new();
        proof {
            assert(all.take(0) =~= Seq::empty());
        }
        for i in 0..self.references.len()
            invariant
                all == self@.references,
                out@ == sources(all.take(i as int), to, *reference_type),
        {
            let x: &ItemReference = &self.references[i];
            proof {
                assert(all.take(i + 1).drop_last() =~= all.take(i as int));
                assert(all[i as int] == x@);
            }
            if fourcc_eq(&x.reference_type, reference_type) && contains_id(&x.to_item_ids, to) {
                out.push(x.from_item_id);
            }
        }
        proof {
            assert(all.take(all.len() as int) =~= all);
        }
        out
    }

    /// Items with a `thmb` reference to `master`.
    pub fn thumbnails_of(&self, master: u32) -> (r: Vec<u32>)
        ensures
            r@ == self@.references_to(master, reference::THMB),
    {
        self.references_to(master, &reference::THMB)
    }

    /// Items with an `auxl` reference to `master`.
    pub fn auxiliaries_of(&self, master: u32) -> (r: Vec<u32>)
        ensures
            r@ == self@.references_to(master, reference::AUXL),
    {
        self.references_to(master, &reference::AUXL)
    }

    /// Metadata items with a `cdsc` reference to `image`.
    pub fn metadata_of(&self, image: u32) -> (r: Vec<u32>)
        ensures
            r@ == self@.references_to(image, reference::CDSC),
    {
        self.references_to(image, &reference::CDSC)
    }

    /// Input images of a derived image item (`dimg` targets).
    pub fn derivation_inputs(&self, derived: u32) -> (r: Vec<u32>)
        ensures
            r@ == self@.references_from(derived, reference::DIMG),
    {
        self.references_from(derived, &reference::DIMG)
    }

    /// `true` when `master` carries a `prem` reference to `aux`
    /// (master samples are pre-multiplied by that alpha plane).
    pub fn is_premultiplied(&self, master: u32, aux: u32) -> (r: bool)
        ensures
            r == self@.references_from(master, reference::PREM).contains(aux),
    {
        let v: Vec<u32> = self.references_from(master, &reference::PREM);
        contains_id(&v, aux)
    }

    /// Entity groups of `grouping_type` containing `entity_id`.
    pub fn groups_containing(&self, entity_id: u32, grouping_type: &FourCc) -> (r: Vec<
        &EntityGroup,
    >)
        ensures
            group_views(r@) == groups_with(self@.entity_groups, entity_id, *grouping_type),
    {
        let ghost all = self@.entity_groups;
        let mut out: Vec<&EntityGroup> = Vec::new();
        proof {
            assert(all.take(0) =~= Seq::empty());
            assert(group_views(out@) =~= Seq::empty());
        }
        for i in 0..self.entity_groups.len()
            invariant
                all == self@.entity_groups,
                group_views(out@) == groups_with(all.take(i as int), entity_id, *grouping_type),
        {
            let x: &EntityGroup = &self.entity_groups[i];
            proof {
                assert(all.take(i + 1).drop_last() =~= all.take(i as int));
                assert(all[i as int] == x@);
            }
            if fourcc_eq(&x.grouping_type, grouping_type) && contains_id(&x.entity_ids, entity_id) {
                let ghost before = group_views(out@);
                out.push(x);
                proof {
                    assert(group_views(out@) =~= before.push(x@));
                }
            }
        }
        proof {
            assert(all.take(all.len() as int) =~= all);
        }
        out
    }

    /// `true` when the item's `data_reference_index` resolves to data in
    /// this file (index 0, or a self-contained `dref` entry).
    pub fn is_self_contained(&self, loc: &ItemLocation) -> (r: bool)
        ensures
            r == self@.self_contained(loc@),
    {
        let n: usize = loc.data_reference_index as usize;
        if n == 0 {
            true
        } else if n <= self.data_references.len() {
            assert(self@.data_references[n - 1] == self.data_references@[n - 1]@);
            self.data_references[n - 1].self_contained
        } else {
            false
        }
    }
}

/// Whether `id` is among `v`.
pub(crate) fn contains_id(v: &Vec<u32>, id: u32) -> (r: bool)
    ensures
        r == v@.contains(id),
{
    for i in 0..v.len()
        invariant
            forall|j: int| 0 <= j < i ==> v@[j] != id,
    {
        if v[i] == id {
            return true;
        }
    }
    false
}

} // verus!
