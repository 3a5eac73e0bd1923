//! The boxes inside `meta`: `hdlr`, `pitm`, `iinf`, `iloc`, `iref`, `iprp`,
//! `grpl`, `dinf` and `ipro`.
use crate::boxes::{
    cstr_at, cstr_end, find_box, fourcc_at, fourcc_eq, fourcc_str, full_box, header_at, parse_box_header,
    parse_full_box, payload, payload_of, reads, uint_at, BoxHeader, FourCc, Reader,
};
use crate::bytes::{be16, be32, copy_of};
use crate::error::{outcome, plain_outcome, view_outcome, ErrorKind, HeifError, Outcome, Result};
use crate::meta::{
    DataReference, DataReferenceModel, EntityGroup, EntityGroupModel, Extent, Handler, HandlerModel, ItemInfo,
    ItemInfoModel, ItemLocation, ItemLocationModel, ItemPropertyAssociations, ItemPropertyAssociationsModel,
    ItemReference, ItemReferenceModel, PropertyAssociation, RawProperty, RawPropertyModel, ITEM_TYPE_MIME,
    ITEM_TYPE_URI, MAX_ENTITY_GROUPS, MAX_ITEMS, MAX_PROPERTIES, MAX_REFERENCES,
};
use crate::tags;
use crate::text::{concat, decimal};
use vstd::prelude::*;

verus! {

/// The handler a `hdlr` payload declares.
pub open spec fn hdlr_of(p: Seq<u8>) -> Outcome<HandlerModel> {
    match full_box(p) {
        None => Err(ErrorKind::Invalid),
        Some((_, _, b)) => if b.len() < 20 {
            Err(ErrorKind::Invalid)
        } else {
            Ok(
                HandlerModel {
                    handler_type: fourcc_at(b, 4),
                    name: if b.len() == 20 {
                        Seq::empty()
                    } else {
                        cstr_at(b, 20)
                    },
                },
            )
        },
    }
}

/// Parse a `hdlr` payload.
pub fn parse_hdlr(p: &[u8]) -> (res: Result<Handler>)
    ensures
        outcome(res) == hdlr_of(p@),
{
    let (_, _, body) = parse_full_box(p)?;
    let mut r: Reader = Reader::new(body);
    r.skip(4, "hdlr pre_defined")?;
    let handler_type: FourCc = r.fourcc("hdlr handler_type")?;
    r.skip(12, "hdlr reserved")?;
    let name: String = if r.is_empty() {
        String::new()
    } else {
        r.cstr("hdlr name")?
    };
    Ok(Handler { handler_type, name })
}

/// The item a `pitm` payload names.
pub open spec fn pitm_of(p: Seq<u8>) -> Outcome<u32> {
    match full_box(p) {
        None => Err(ErrorKind::Invalid),
        Some((version, _, b)) => if version == 0 && b.len() >= 2 {
            Ok(be16(b, 0) as u32)
        } else if version == 1 && b.len() >= 4 {
            Ok(be32(b, 0))
        } else {
            Err(ErrorKind::Invalid)
        },
    }
}

/// Parse a `pitm` payload.
pub fn parse_pitm(p: &[u8]) -> (res: Result<u32>)
    ensures
        plain_outcome(res) == pitm_of(p@),
{
    let (version, _, body) = parse_full_box(p)?;
    let mut r: Reader = Reader::new(body);
    if version == 0 {
        let id: u16 = r.u16("pitm item_ID")?;
        Ok(id as u32)
    } else if version == 1 {
        r.u32("pitm item_ID")
    } else {
        let v: String = decimal(version as u64);
        Err(HeifError::invalid(concat(&["pitm version ", v.as_str()])))
    }
}

/// The item info an `infe` payload holds.
pub open spec fn infe_of(p: Seq<u8>) -> Outcome<ItemInfoModel> {
    match full_box(p) {
        None => Err(ErrorKind::Invalid),
        Some((version, flags, b)) => {
            let start: int = if version == 2 {
                8
            } else {
                10
            };
            if version != 2 && version != 3 {
                Err(ErrorKind::Unsupported)
            } else if b.len() < start {
                Err(ErrorKind::Invalid)
            } else {
                let t = fourcc_at(b, start - 4);
                let q = cstr_end(b, start);
                let q2 = cstr_end(b, q);
                let mime = t == ITEM_TYPE_MIME;
                Ok(
                    ItemInfoModel {
                        id: if version == 2 {
                            be16(b, 0) as u32
                        } else {
                            be32(b, 0)
                        },
                        version,
                        flags,
                        protection_index: be16(b, start - 6),
                        item_type: t,
                        name: cstr_at(b, start),
                        content_type: if mime {
                            Some(cstr_at(b, q))
                        } else {
                            None
                        },
                        content_encoding: if mime && q2 < b.len() && cstr_at(b, q2).len() > 0 {
                            Some(cstr_at(b, q2))
                        } else {
                            None
                        },
                        item_uri_type: if t == ITEM_TYPE_URI {
                            Some(cstr_at(b, q))
                        } else {
                            None
                        },
                    },
                )
            }
        },
    }
}

/// Parse an `infe` payload.
pub fn parse_infe(p: &[u8]) -> (res: Result<ItemInfo>)
    ensures
        outcome(res) == infe_of(p@),
{
    let (version, flags, body) = parse_full_box(p)?;
    let mut r: Reader = Reader::new(body);
    let id: u32 = if version == 2 {
        let id: u16 = r.u16("infe item_ID")?;
        id as u32
    } else if version == 3 {
        r.u32("infe item_ID")?
    } else {
        let v: String = decimal(version as u64);
        return Err(
            HeifError::unsupported(
                concat(&["infe version ", v.as_str(), " (HEIF requires 2 or 3)"]),
            ),
        );
    };
    let protection_index: u16 = r.u16("infe item_protection_index")?;
    let item_type: FourCc = r.fourcc("infe item_type")?;
    let name: String = r.cstr("infe item_name")?;
    let mut content_type: Option<String> = None;
    let mut content_encoding: Option<String> = None;
    let mut item_uri_type: Option<String> = None;
    let ghost mime_is_not_uri = ITEM_TYPE_MIME[0] != ITEM_TYPE_URI[0];
    assert(mime_is_not_uri);
    if fourcc_eq(&item_type, &ITEM_TYPE_MIME) {
        let ct: String = r.cstr("infe content_type")?;
        content_type = Some(ct);
        if !r.is_empty() {
            let ce: String = r.cstr("infe content_encoding")?;
            if !ce.as_str().is_empty() {
                content_encoding = Some(ce);
            }
        }
    } else if fourcc_eq(&item_type, &ITEM_TYPE_URI) {
        let u: String = r.cstr("infe item_uri_type")?;
        item_uri_type = Some(u);
    }
    Ok(
        ItemInfo {
            id,
            version,
            flags,
            protection_index,
            item_type,
            name,
            content_type,
            content_encoding,
            item_uri_type,
        },
    )
}

/// The `infe` entries from `pos` on, after those in `acc`, until there are
/// `count`; other boxes are passed over.
pub open spec fn infos_from(b: Seq<u8>, pos: int, count: int, acc: Seq<ItemInfoModel>) -> Outcome<
    Seq<ItemInfoModel>,
>
    decreases b.len() - pos,
{
    if acc.len() >= count {
        Ok(acc)
    } else if pos >= b.len() {
        Err(ErrorKind::Invalid)
    } else {
        match header_at(b, pos) {
            None => Err(ErrorKind::Invalid),
            Some(h) => if !(pos < h.end_at() <= b.len()) {
                Err(ErrorKind::Invalid)
            } else if h.box_type == tags::INFE {
                match infe_of(payload_of(b, h)) {
                    Err(e) => Err(e),
                    Ok(x) => infos_from(b, h.end_at(), count, acc.push(x)),
                }
            } else {
                infos_from(b, h.end_at(), count, acc)
            },
        }
    }
}

/// The items an `iinf` payload lists.
pub open spec fn iinf_of(p: Seq<u8>) -> Outcome<Seq<ItemInfoModel>> {
    match full_box(p) {
        None => Err(ErrorKind::Invalid),
        Some((version, _, b)) => {
            let w: int = if version == 0 {
                2
            } else {
                4
            };
            let count: int = if version == 0 {
                be16(b, 0) as int
            } else {
                be32(b, 0) as int
            };
            if b.len() < w {
                Err(ErrorKind::Invalid)
            } else if count > MAX_ITEMS {
                Err(ErrorKind::Exhausted)
            } else {
                infos_from(b.subrange(w, b.len() as int), 0, count, Seq::empty())
            }
        },
    }
}

/// Parse an `iinf` payload.
pub fn parse_iinf(p: &[u8]) -> (res: Result<Vec<ItemInfo>>)
    ensures
        outcome(res) == iinf_of(p@),
{
    let (version, _, body) = parse_full_box(p)?;
    let mut r: Reader = Reader::new(body);
    let count: u32 = if version == 0 {
        let n: u16 = r.u16("iinf entry_count")?;
        n as u32
    } else {
        r.u32("iinf entry_count")?
    };
    if count as u64 > MAX_ITEMS as u64 {
        let n: String = decimal(count as u64);
        return Err(HeifError::exhausted(concat(&["iinf declares ", n.as_str(), " items"])));
    }
    let count: usize = count as usize;
    let entries: &[u8] = r.rest();
    let ghost goal = infos_from(entries@, 0, count as int, Seq::empty());
    let mut out: Vec<ItemInfo> = Vec::new();
    proof {
        assert(out.deep_view() =~= Seq::empty());
    }
    let mut cursor: usize = 0;
    while out.len() < count
        invariant
            cursor <= entries@.len(),
            iinf_of(p@) == goal,
            goal == infos_from(entries@, cursor as int, count as int, out.deep_view()),
        decreases entries@.len() - cursor,
    {
        if cursor >= entries.len() {
            let n: String = decimal(count as u64);
            let m: String = decimal(out.len() as u64);
            return Err(
                HeifError::invalid(
                    concat(
                        &[
                            "iinf declares ",
                            n.as_str(),
                            " entries but only ",
                            m.as_str(),
                            " infe boxes are present",
                        ],
                    ),
                ),
            );
        }
        let h: BoxHeader = parse_box_header(entries, cursor)?;
        proof {
            crate::boxes::lemma_header_inside(entries@, cursor as int);
        }
        if fourcc_eq(&h.box_type, &tags::INFE) {
            let x: ItemInfo = parse_infe(payload(entries, &h))?;
            let ghost before = out.deep_view();
            out.push(x);
            proof {
                assert(out.deep_view() =~= before.push(x@));
            }
        }
        cursor = h.end();
    }
    Ok(out)
}

/// The field widths an `iloc` box declares.
#[derive(Clone, Copy, Debug, PartialEq, Eq)]
pub struct IlocSizes {
    /// Box version.
    pub version: u8,
    /// Bytes of an extent offset.
    pub offset_size: usize,
    /// Bytes of an extent length.
    pub length_size: usize,
    /// Bytes of a base offset.
    pub base_offset_size: usize,
    /// Bytes of an extent index.
    pub index_size: usize,
}

/// Whether a field width is one an `iloc` box may declare.
pub open spec fn iloc_width(w: int) -> bool {
    w == 0 || w == 4 || w == 8
}

impl IlocSizes {
    /// Every width is permitted.
    pub open spec fn wf(self) -> bool {
        iloc_width(self.offset_size as int) && iloc_width(self.length_size as int) && iloc_width(
            self.base_offset_size as int,
        ) && iloc_width(self.index_size as int)
    }

    /// Bytes of an extent.
    pub open spec fn extent_len(self) -> int {
        self.index_size + self.offset_size + self.length_size
    }
}

/// `n` extents from `p` on, after those in `acc`, and the offset behind them.
pub open spec fn extents_at(b: Seq<u8>, p: int, n: int, z: IlocSizes, acc: Seq<Extent>) -> Outcome<
    (Seq<Extent>, int),
>
    decreases n,
{
    if n <= 0 {
        Ok((acc, p))
    } else if p + z.extent_len() > b.len() {
        Err(ErrorKind::Invalid)
    } else {
        extents_at(
            b,
            p + z.extent_len(),
            n - 1,
            z,
            acc.push(
                Extent {
                    index: uint_at(b, p, z.index_size as int),
                    offset: uint_at(b, p + z.index_size, z.offset_size as int),
                    length: uint_at(b, p + z.index_size + z.offset_size, z.length_size as int),
                },
            ),
        )
    }
}

/// The item location at `p` and the offset behind it.
pub open spec fn location_at(b: Seq<u8>, p: int, z: IlocSizes) -> Outcome<
    (ItemLocationModel, int),
> {
    let p1: int = p + (if z.version < 2 {
        2int
    } else {
        4int
    });
    let p2: int = p1 + (if z.version >= 1 {
        2int
    } else {
        0int
    });
    let method: u8 = if z.version >= 1 {
        (be16(b, p1) % 16) as u8
    } else {
        0
    };
    let p3 = p2 + 2;
    let p4 = p3 + z.base_offset_size;
    if p4 + 2 > b.len() || method > 2 {
        Err(ErrorKind::Invalid)
    } else {
        match extents_at(b, p4 + 2, be16(b, p4) as int, z, Seq::empty()) {
            Err(e) => Err(e),
            Ok((extents, end)) => Ok(
                (
                    ItemLocationModel {
                        item_id: if z.version < 2 {
                            be16(b, p) as u32
                        } else {
                            be32(b, p)
                        },
                        construction_method: method,
                        data_reference_index: be16(b, p2),
                        base_offset: uint_at(b, p3, z.base_offset_size as int),
                        extents,
                    },
                    end,
                ),
            ),
        }
    }
}

/// `n` item locations from `p` on, after those in `acc`.
pub open spec fn locations_at(
    b: Seq<u8>,
    p: int,
    n: int,
    z: IlocSizes,
    acc: Seq<ItemLocationModel>,
) -> Outcome<Seq<ItemLocationModel>>
    decreases n,
{
    if n <= 0 {
        Ok(acc)
    } else {
        match location_at(b, p, z) {
            Err(e) => Err(e),
            Ok((x, end)) => locations_at(b, end, n - 1, z, acc.push(x)),
        }
    }
}

/// The field widths an `iloc` body declares.
pub open spec fn iloc_sizes(version: u8, b: Seq<u8>) -> IlocSizes {
    IlocSizes {
        version,
        offset_size: (b[0] / 16) as usize,
        length_size: (b[0] % 16) as usize,
        base_offset_size: (b[1] / 16) as usize,
        index_size: if version >= 1 {
            (b[1] % 16) as usize
        } else {
            0
        },
    }
}

/// The item locations an `iloc` payload lists.
pub open spec fn iloc_of(p: Seq<u8>) -> Outcome<Seq<ItemLocationModel>> {
    match full_box(p) {
        None => Err(ErrorKind::Invalid),
        Some((version, _, b)) => {
            let z = iloc_sizes(version, b);
            let w: int = if version < 2 {
                2
            } else {
                4
            };
            let count: int = if version < 2 {
                be16(b, 2) as int
            } else {
                be32(b, 2) as int
            };
            if version > 2 || b.len() < 2 || !z.wf() || b.len() < 2 + w {
                Err(ErrorKind::Invalid)
            } else if count > MAX_ITEMS {
                Err(ErrorKind::Exhausted)
            } else {
                locations_at(b, 2 + w, count, z, Seq::empty())
            }
        },
    }
}

fn read_extents(r: &mut Reader, n: u16, z: IlocSizes) -> (res: Result<Vec<Extent>>)
    requires
        old(r).wf(),
        z.wf(),
        z.version < 1 ==> z.index_size == 0,
    ensures
        reads(
            view_outcome(res),
            *old(r),
            *final(r),
            extents_at(old(r).data(), old(r).at(), n as int, z, Seq::empty()),
        ),
{
    let ghost b = r.data();
    let ghost goal = extents_at(b, r.at(), n as int, z, Seq::empty());
    let mut extents: Vec<Extent> = Vec::new();
    let mut i: u16 = 0;
    while i < n
        invariant
            i <= n,
            z.wf(),
            z.version < 1 ==> z.index_size == 0,
            r.wf(),
            r.data() == b,
            b == old(r).data(),
            goal == extents_at(b, old(r).at(), n as int, z, Seq::empty()),
            goal == extents_at(b, r.at(), n - i, z, extents@),
        decreases n - i,
    {
        let index: u64 = if z.version >= 1 && z.index_size > 0 {
            r.uint(z.index_size, "iloc extent_index")?
        } else {
            0
        };
        let offset: u64 = r.uint(z.offset_size, "iloc extent_offset")?;
        let length: u64 = r.uint(z.length_size, "iloc extent_length")?;
        extents.push(Extent { index, offset, length });
        i = i + 1;
    }
    Ok(extents)
}

fn read_location(r: &mut Reader, z: IlocSizes) -> (res: Result<ItemLocation>)
    requires
        old(r).wf(),
        z.wf(),
        z.version < 1 ==> z.index_size == 0,
    ensures
        reads(
            outcome(res),
            *old(r),
            *final(r),
            location_at(old(r).data(), old(r).at(), z),
        ),
{
    let item_id: u32 = if z.version < 2 {
        let id: u16 = r.u16("iloc item_ID")?;
        id as u32
    } else {
        r.u32("iloc item_ID")?
    };
    let construction_method: u8 = if z.version >= 1 {
        let m: u16 = r.u16("iloc construction_method")?;
        (m % 16) as u8
    } else {
        0
    };
    if construction_method > 2 {
        let id: String = decimal(item_id as u64);
        let m: String = decimal(construction_method as u64);
        return Err(
            HeifError::invalid(
                concat(&["iloc item ", id.as_str(), ": construction_method ", m.as_str()]),
            ),
        );
    }
    let data_reference_index: u16 = r.u16("iloc data_reference_index")?;
    let base_offset: u64 = r.uint(z.base_offset_size, "iloc base_offset")?;
    let extent_count: u16 = r.u16("iloc extent_count")?;
    let extents: Vec<Extent> = read_extents(r, extent_count, z)?;
    Ok(ItemLocation { item_id, construction_method, data_reference_index, base_offset, extents })
}

/// Parse an `iloc` payload.
pub fn parse_iloc(p: &[u8]) -> (res: Result<Vec<ItemLocation>>)
    ensures
        outcome(res) == iloc_of(p@),
{
    let (version, _, body) = parse_full_box(p)?;
    if version > 2 {
        let v: String = decimal(version as u64);
        return Err(HeifError::invalid(concat(&["iloc version ", v.as_str()])));
    }
    let mut r: Reader = Reader::new(body);
    let b0: u8 = r.u8("iloc sizes")?;
    let b1: u8 = r.u8("iloc sizes")?;
    let z: IlocSizes = IlocSizes {
        version,
        offset_size: (b0 / 16) as usize,
        length_size: (b0 % 16) as usize,
        base_offset_size: (b1 / 16) as usize,
        index_size: if version >= 1 {
            (b1 % 16) as usize
        } else {
            0
        },
    };
    check_width("offset_size", z.offset_size)?;
    check_width("length_size", z.length_size)?;
    check_width("base_offset_size", z.base_offset_size)?;
    check_width("index_size", z.index_size)?;
    let count: u32 = if version < 2 {
        let n: u16 = r.u16("iloc item_count")?;
        n as u32
    } else {
        r.u32("iloc item_count")?
    };
    if count as u64 > MAX_ITEMS as u64 {
        let n: String = decimal(count as u64);
        return Err(HeifError::exhausted(concat(&["iloc declares ", n.as_str(), " items"])));
    }
    let ghost start = r.at();
    let ghost goal = locations_at(body@, start, count as int, z, Seq::empty());
    let mut out: Vec<ItemLocation> = Vec::new();
    proof {
        assert(out.deep_view() =~= Seq::empty());
    }
    let mut i: u32 = 0;
    while i < count
        invariant
            i <= count,
            z.wf(),
            z.version < 1 ==> z.index_size == 0,
            r.wf(),
            r.data() == body@,
            iloc_of(p@) == goal,
            goal == locations_at(body@, r.at(), count - i, z, out.deep_view()),
        decreases count - i,
    {
        let x: ItemLocation = read_location(&mut r, z)?;
        let ghost before = out.deep_view();
        out.push(x);
        proof {
            assert(out.deep_view() =~= before.push(x@));
        }
        i = i + 1;
    }
    Ok(out)
}

fn check_width(name: &str, w: usize) -> (r: Result<()>)
    ensures
        match r {
            Ok(_) => iloc_width(w as int),
            Err(e) => e.kind() == ErrorKind::Invalid && !iloc_width(w as int),
        },
{
    if w == 0 || w == 4 || w == 8 {
        Ok(())
    } else {
        let n: String = decimal(w as u64);
        Err(HeifError::invalid(concat(&["iloc ", name, " ", n.as_str(), " not in {0, 4, 8}"])))
    }
}

/// The item id at index `i` of a list at `p`: 16 bits in version 0, else 32.
pub open spec fn id_at(b: Seq<u8>, p: int, version: u8, i: int) -> u32 {
    if version == 0 {
        be16(b, p + 2 * i) as u32
    } else {
        be32(b, p + 4 * i)
    }
}

/// Bytes of an item id.
pub open spec fn id_width(version: u8) -> int {
    if version == 0 {
        2
    } else {
        4
    }
}

/// The reference a child of `iref` holds.
pub open spec fn reference_of(p: Seq<u8>, version: u8, t: FourCc) -> Outcome<ItemReferenceModel> {
    let w = id_width(version);
    if p.len() < w + 2 || p.len() < w + 2 + be16(p, w) * w {
        Err(ErrorKind::Invalid)
    } else {
        Ok(
            ItemReferenceModel {
                reference_type: t,
                from_item_id: id_at(p, 0, version, 0),
                to_item_ids: Seq::new(
                    be16(p, w) as nat,
                    |i: int| id_at(p, w + 2, version, i),
                ),
            },
        )
    }
}

/// The references from `pos` on, after those in `acc`.
pub open spec fn references_from(
    b: Seq<u8>,
    pos: int,
    version: u8,
    acc: Seq<ItemReferenceModel>,
) -> Outcome<Seq<ItemReferenceModel>>
    decreases b.len() - pos,
{
    if pos >= b.len() {
        Ok(acc)
    } else {
        match header_at(b, pos) {
            None => Err(ErrorKind::Invalid),
            Some(h) => if acc.len() >= MAX_REFERENCES {
                Err(ErrorKind::Exhausted)
            } else if !(pos < h.end_at() <= b.len()) {
                Err(ErrorKind::Invalid)
            } else {
                match reference_of(payload_of(b, h), version, h.box_type) {
                    Err(e) => Err(e),
                    Ok(x) => references_from(b, h.end_at(), version, acc.push(x)),
                }
            },
        }
    }
}

/// The references an `iref` payload holds.
pub open spec fn iref_of(p: Seq<u8>) -> Outcome<Seq<ItemReferenceModel>> {
    match full_box(p) {
        None => Err(ErrorKind::Invalid),
        Some((version, _, b)) => if version > 1 {
            Err(ErrorKind::Invalid)
        } else {
            references_from(b, 0, version, Seq::empty())
        },
    }
}

fn read_id(r: &mut Reader, version: u8, what: &str) -> (res: Result<u32>)
    requires
        old(r).wf(),
    ensures
        old(r).took(*final(r), id_width(version), res is Ok),
        res matches Ok(v) ==> v == id_at(old(r).data(), old(r).at(), version, 0),
        res matches Err(e) ==> e.kind() == ErrorKind::Invalid,
{
    if version == 0 {
        let id: u16 = r.u16(what)?;
        Ok(id as u32)
    } else {
        r.u32(what)
    }
}

fn parse_reference(p: &[u8], version: u8, t: FourCc) -> (res: Result<ItemReference>)
    ensures
        outcome(res) == reference_of(p@, version, t),
{
    let ghost w = id_width(version);
    let mut r: Reader = Reader::new(p);
    let from_item_id: u32 = read_id(&mut r, version, "iref from_item_ID")?;
    let count: u16 = r.u16("iref reference_count")?;
    let mut to_item_ids: Vec<u32> = Vec::new();
    let mut i: u16 = 0;
    while i < count
        invariant
            i <= count,
            r.wf(),
            r.data() == p@,
            w == id_width(version),
            p@.len() >= w + 2,
            count == be16(p@, w),
            r.at() == w + 2 + i * w,
            to_item_ids@.len() == i,
            forall|k: int| 0 <= k < i ==> to_item_ids@[k] == id_at(p@, w + 2, version, k),
        decreases count - i,
    {
        proof {
            if version == 0 {
                assert(w == 2);
            } else {
                assert(w == 4);
            }
            assert(count * w >= i * w + w) by (nonlinear_arith)
                requires
                    i + 1 <= count,
                    w == 2 || w == 4,
            ;
            assert((i + 1) * w == i * w + w) by (nonlinear_arith);
        }
        let id: u32 = read_id(&mut r, version, "iref to_item_ID")?;
        to_item_ids.push(id);
        i = i + 1;
    }
    let x: ItemReference = ItemReference { reference_type: t, from_item_id, to_item_ids };
    proof {
        assert(x@.to_item_ids =~= Seq::new(
            be16(p@, w) as nat,
            |i: int| id_at(p@, w + 2, version, i),
        ));
    }
    Ok(x)
}

/// Parse an `iref` payload.
pub fn parse_iref(p: &[u8]) -> (res: Result<Vec<ItemReference>>)
    ensures
        outcome(res) == iref_of(p@),
{
    let (version, _, body) = parse_full_box(p)?;
    if version > 1 {
        let v: String = decimal(version as u64);
        return Err(HeifError::invalid(concat(&["iref version ", v.as_str()])));
    }
    let ghost goal = references_from(body@, 0, version, Seq::empty());
    let mut out: Vec<ItemReference> = Vec::new();
    proof {
        assert(out.deep_view() =~= Seq::empty());
    }
    let mut cursor: usize = 0;
    while cursor < body.len()
        invariant
            iref_of(p@) == goal,
            goal == references_from(body@, cursor as int, version, out.deep_view()),
        decreases body@.len() - cursor,
    {
        let h: BoxHeader = parse_box_header(body, cursor)?;
        proof {
            crate::boxes::lemma_header_inside(body@, cursor as int);
        }
        if out.len() >= MAX_REFERENCES {
            let n: String = decimal(MAX_REFERENCES as u64);
            return Err(
                HeifError::exhausted(
                    concat(&["iref holds more than ", n.as_str(), " reference boxes"]),
                ),
            );
        }
        let x: ItemReference = parse_reference(payload(body, &h), version, h.box_type)?;
        let ghost before = out.deep_view();
        out.push(x);
        proof {
            assert(out.deep_view() =~= before.push(x@));
        }
        cursor = h.end();
    }
    Ok(out)
}

/// The property a box of `ipco` is.
pub open spec fn raw_property(b: Seq<u8>, h: BoxHeader) -> RawPropertyModel {
    RawPropertyModel {
        box_type: h.box_type,
        user_type: h.user_type,
        body: payload_of(b, h),
        box_size: (h.end_at() - h.start) as usize,
    }
}

/// The property a box is, its payload copied.
pub(crate) fn to_raw_property(b: &[u8], h: &BoxHeader) -> (r: RawProperty)
    requires
        h.inside(b@.len()),
    ensures
        r@ == raw_property(b@, *h),
{
    assert(b.len() == b@.len());
    RawProperty {
        box_type: h.box_type,
        user_type: h.user_type,
        body: copy_of(payload(b, h)),
        box_size: h.total_len(),
    }
}

/// The properties from `pos` on, after those in `acc`.
pub open spec fn properties_from(b: Seq<u8>, pos: int, acc: Seq<RawPropertyModel>) -> Outcome<
    Seq<RawPropertyModel>,
>
    decreases b.len() - pos,
{
    if pos >= b.len() {
        Ok(acc)
    } else {
        match header_at(b, pos) {
            None => Err(ErrorKind::Invalid),
            Some(h) => if acc.len() >= MAX_PROPERTIES {
                Err(ErrorKind::Exhausted)
            } else if !(pos < h.end_at() <= b.len()) {
                Err(ErrorKind::Invalid)
            } else {
                properties_from(b, h.end_at(), acc.push(raw_property(b, h)))
            },
        }
    }
}

/// Parse an `ipco` payload.
pub fn parse_ipco(p: &[u8]) -> (res: Result<Vec<RawProperty>>)
    ensures
        outcome(res) == properties_from(p@, 0, Seq::empty()),
{
    let ghost goal = properties_from(p@, 0, Seq::empty());
    let mut out: Vec<RawProperty> = Vec::new();
    proof {
        assert(out.deep_view() =~= Seq::empty());
    }
    let mut cursor: usize = 0;
    while cursor < p.len()
        invariant
            goal == properties_from(p@, 0, Seq::empty()),
            goal == properties_from(p@, cursor as int, out.deep_view()),
        decreases p@.len() - cursor,
    {
        let h: BoxHeader = parse_box_header(p, cursor)?;
        proof {
            crate::boxes::lemma_header_inside(p@, cursor as int);
        }
        if out.len() >= MAX_PROPERTIES {
            let n: String = decimal(MAX_PROPERTIES as u64);
            return Err(
                HeifError::exhausted(concat(&["ipco holds more than ", n.as_str(), " properties"])),
            );
        }
        let x: RawProperty = to_raw_property(p, &h);
        let ghost before = out.deep_view();
        out.push(x);
        proof {
            assert(out.deep_view() =~= before.push(x@));
        }
        cursor = h.end();
    }
    Ok(out)
}

/// The association at `p`: 16 bits when `large`, else 8; the top bit marks it
/// essential.
pub open spec fn association_at(b: Seq<u8>, p: int, large: bool) -> PropertyAssociation {
    if large {
        PropertyAssociation {
            index: (be16(b, p) % 0x8000) as u16,
            essential: be16(b, p) / 0x8000 == 1,
        }
    } else {
        PropertyAssociation { index: (b[p] % 0x80) as u16, essential: b[p] / 0x80 == 1 }
    }
}

/// `n` associations from `p` on, after those in `acc`. Those with index 0 name
/// no property and are dropped; they may not be essential.
pub open spec fn associations_at(
    b: Seq<u8>,
    p: int,
    n: int,
    large: bool,
    acc: Seq<PropertyAssociation>,
) -> Outcome<(Seq<PropertyAssociation>, int)>
    decreases n,
{
    let w: int = if large {
        2
    } else {
        1
    };
    if n <= 0 {
        Ok((acc, p))
    } else if p + w > b.len() {
        Err(ErrorKind::Invalid)
    } else {
        let a = association_at(b, p, large);
        if a.index == 0 {
            if a.essential {
                Err(ErrorKind::Invalid)
            } else {
                associations_at(b, p + w, n - 1, large, acc)
            }
        } else {
            associations_at(b, p + w, n - 1, large, acc.push(a))
        }
    }
}

/// `n` rows from `p` on, after those in `acc`; the item ids rise from `last`.
pub open spec fn rows_at(
    b: Seq<u8>,
    p: int,
    n: int,
    version: u8,
    large: bool,
    last: Option<u32>,
    acc: Seq<ItemPropertyAssociationsModel>,
) -> Outcome<Seq<ItemPropertyAssociationsModel>>
    decreases n,
{
    let w = id_width(version);
    let id = id_at(b, p, version, 0);
    if n <= 0 {
        Ok(acc)
    } else if p + w + 1 > b.len() || (last matches Some(prev) && id <= prev) {
        Err(ErrorKind::Invalid)
    } else {
        match associations_at(b, p + w + 1, b[p + w] as int, large, Seq::empty()) {
            Err(e) => Err(e),
            Ok((entries, end)) => rows_at(
                b,
                end,
                n - 1,
                version,
                large,
                Some(id),
                acc.push(ItemPropertyAssociationsModel { item_id: id, entries }),
            ),
        }
    }
}

/// The rows an `ipma` payload holds, and the version and flags of the `ipma`
/// boxes seen with it: each pair may occur once.
pub open spec fn ipma_of(p: Seq<u8>, seen: Seq<(u8, u32)>) -> Outcome<
    (Seq<ItemPropertyAssociationsModel>, Seq<(u8, u32)>),
> {
    match full_box(p) {
        None => Err(ErrorKind::Invalid),
        Some((version, flags, b)) => if version > 1 || seen.contains((version, flags)) || b.len()
            < 4 {
            Err(ErrorKind::Invalid)
        } else if be32(b, 0) > MAX_ITEMS {
            Err(ErrorKind::Exhausted)
        } else {
            match rows_at(b, 4, be32(b, 0) as int, version, flags % 2 == 1, None, Seq::empty()) {
                Err(e) => Err(e),
                Ok(rows) => Ok((rows, seen.push((version, flags)))),
            }
        },
    }
}

fn seen_key(seen: &Vec<(u8, u32)>, version: u8, flags: u32) -> (r: bool)
    ensures
        r == seen@.contains((version, flags)),
{
    for i in 0..seen.len()
        invariant
            forall|j: int| 0 <= j < i ==> seen@[j] != (version, flags),
    {
        if seen[i].0 == version && seen[i].1 == flags {
            assert(seen@[i as int] == (version, flags));
            return true;
        }
    }
    false
}

fn read_associations(r: &mut Reader, n: u8, large: bool) -> (res: Result<Vec<PropertyAssociation>>)
    requires
        old(r).wf(),
    ensures
        reads(
            view_outcome(res),
            *old(r),
            *final(r),
            associations_at(old(r).data(), old(r).at(), n as int, large, Seq::empty()),
        ),
{
    let ghost b = r.data();
    let ghost goal = associations_at(b, r.at(), n as int, large, Seq::empty());
    let mut entries: Vec<PropertyAssociation> = Vec::new();
    let mut i: u8 = 0;
    while i < n
        invariant
            i <= n,
            r.wf(),
            r.data() == b,
            b == old(r).data(),
            goal == associations_at(b, old(r).at(), n as int, large, Seq::empty()),
            goal == associations_at(b, r.at(), n - i, large, entries@),
        decreases n - i,
    {
        let a: PropertyAssociation = if large {
            let w: u16 = r.u16("ipma association")?;
            PropertyAssociation { index: w % 0x8000, essential: w / 0x8000 == 1 }
        } else {
            let w: u8 = r.u8("ipma association")?;
            PropertyAssociation { index: (w % 0x80) as u16, essential: w / 0x80 == 1 }
        };
        if a.index == 0 {
            if a.essential {
                return Err(
                    HeifError::invalid("ipma: an essential association with property index 0"),
                );
            }
        } else {
            entries.push(a);
        }
        i = i + 1;
    }
    Ok(entries)
}

/// Parse an `ipma` payload; `seen` keeps the version and flags of the boxes
/// read so far.
pub fn parse_ipma(p: &[u8], seen: &mut Vec<(u8, u32)>) -> (res: Result<
    Vec<ItemPropertyAssociations>,
>)
    ensures
        match res {
            Ok(v) => ipma_of(p@, old(seen)@) == Ok::<
                (Seq<ItemPropertyAssociationsModel>, Seq<(u8, u32)>),
                ErrorKind,
            >((v.deep_view(), final(seen)@)),
            Err(e) => ipma_of(p@, old(seen)@) == Err::<
                (Seq<ItemPropertyAssociationsModel>, Seq<(u8, u32)>),
                ErrorKind,
            >(e.kind()),
        },
{
    let (version, flags, body) = parse_full_box(p)?;
    if version > 1 {
        let v: String = decimal(version as u64);
        return Err(HeifError::invalid(concat(&["ipma version ", v.as_str()])));
    }
    // HEIF §9.3.1: at most one ipma box per (version, flags) pair.
    if seen_key(seen, version, flags) {
        let v: String = decimal(version as u64);
        let f: String = decimal(flags as u64);
        return Err(
            HeifError::invalid(
                concat(
                    &["duplicate ipma box with version ", v.as_str(), " flags ", f.as_str()],
                ),
            ),
        );
    }
    let ghost before_seen = seen@;
    seen.push((version, flags));
    let large: bool = flags % 2 == 1;
    let mut r: Reader = Reader::new(body);
    let entry_count: u32 = r.u32("ipma entry_count")?;
    if entry_count as u64 > MAX_ITEMS as u64 {
        let n: String = decimal(entry_count as u64);
        return Err(HeifError::exhausted(concat(&["ipma declares ", n.as_str(), " entries"])));
    }
    let ghost goal = rows_at(body@, 4, entry_count as int, version, large, None, Seq::empty());
    let mut out: Vec<ItemPropertyAssociations> = Vec::new();
    proof {
        assert(out.deep_view() =~= Seq::empty());
    }
    let mut last_id: Option<u32> = None;
    let mut i: u32 = 0;
    while i < entry_count
        invariant
            i <= entry_count,
            r.wf(),
            r.data() == body@,
            before_seen == old(seen)@,
            seen@ == before_seen.push((version, flags)),
            ipma_of(p@, before_seen) == (match goal {
                Err(e) => Err::<
                    (Seq<ItemPropertyAssociationsModel>, Seq<(u8, u32)>),
                    ErrorKind,
                >(e),
                Ok(rows) => Ok::<
                    (Seq<ItemPropertyAssociationsModel>, Seq<(u8, u32)>),
                    ErrorKind,
                >((rows, seen@)),
            }),
            goal == rows_at(
                body@,
                r.at(),
                entry_count - i,
                version,
                large,
                last_id,
                out.deep_view(),
            ),
        decreases entry_count - i,
    {
        let item_id: u32 = read_id(&mut r, version, "ipma item_ID")?;
        // §9.3.1: ordered by increasing item_ID, at most one row per item.
        if let Some(prev) = last_id {
            if item_id <= prev {
                let a: String = decimal(item_id as u64);
                let b: String = decimal(prev as u64);
                return Err(
                    HeifError::invalid(
                        concat(
                            &[
                                "ipma rows not strictly increasing (item ",
                                a.as_str(),
                                " after ",
                                b.as_str(),
                                ")",
                            ],
                        ),
                    ),
                );
            }
        }
        last_id = Some(item_id);
        let n: u8 = r.u8("ipma association_count")?;
        let entries: Vec<PropertyAssociation> = read_associations(&mut r, n, large)?;
        let x: ItemPropertyAssociations = ItemPropertyAssociations { item_id, entries };
        let ghost before = out.deep_view();
        out.push(x);
        proof {
            assert(out.deep_view() =~= before.push(x@));
        }
        i = i + 1;
    }
    Ok(out)
}

/// What is read of `iprp` so far: the properties, whether `ipco` was met, the
/// rows and the `ipma` boxes seen.
#[verifier::ext_equal]
pub struct IprpState {
    /// Whether `ipco` was met.
    pub saw_ipco: bool,
    /// The properties.
    pub props: Seq<RawPropertyModel>,
    /// The rows.
    pub rows: Seq<ItemPropertyAssociationsModel>,
    /// Version and flags of the `ipma` boxes seen.
    pub seen: Seq<(u8, u32)>,
}

/// The state once the children of `iprp` from `pos` on are read too.
pub open spec fn iprp_from(p: Seq<u8>, pos: int, st: IprpState) -> Outcome<IprpState>
    decreases p.len() - pos,
{
    if pos >= p.len() {
        Ok(st)
    } else {
        match header_at(p, pos) {
            None => Err(ErrorKind::Invalid),
            Some(h) => if !(pos < h.end_at() <= p.len()) {
                Err(ErrorKind::Invalid)
            } else if h.box_type == tags::IPCO {
                if st.saw_ipco {
                    Err(ErrorKind::Invalid)
                } else {
                    match properties_from(payload_of(p, h), 0, Seq::empty()) {
                        Err(e) => Err(e),
                        Ok(props) => iprp_from(
                            p,
                            h.end_at(),
                            IprpState { saw_ipco: true, props, ..st },
                        ),
                    }
                }
            } else if h.box_type == tags::IPMA {
                match ipma_of(payload_of(p, h), st.seen) {
                    Err(e) => Err(e),
                    Ok((rows, seen)) => iprp_from(
                        p,
                        h.end_at(),
                        IprpState { rows: st.rows + rows, seen, ..st },
                    ),
                }
            } else {
                iprp_from(p, h.end_at(), st)
            },
        }
    }
}

/// The properties, the rows and the `ipma` boxes seen after an `iprp` payload.
pub open spec fn iprp_of(p: Seq<u8>, seen: Seq<(u8, u32)>) -> Outcome<
    (Seq<RawPropertyModel>, Seq<ItemPropertyAssociationsModel>, Seq<(u8, u32)>),
> {
    match iprp_from(
        p,
        0,
        IprpState { saw_ipco: false, props: Seq::empty(), rows: Seq::empty(), seen },
    ) {
        Err(e) => Err(e),
        Ok(st) => if st.saw_ipco {
            Ok((st.props, st.rows, st.seen))
        } else {
            Err(ErrorKind::Invalid)
        },
    }
}

/// Parse an `iprp` payload.
pub fn parse_iprp(p: &[u8], seen_ipma_keys: &mut Vec<(u8, u32)>) -> (res: Result<
    (Vec<RawProperty>, Vec<ItemPropertyAssociations>),
>)
    ensures
        match res {
            Ok(v) => iprp_of(p@, old(seen_ipma_keys)@) == Ok::<
                (Seq<RawPropertyModel>, Seq<ItemPropertyAssociationsModel>, Seq<(u8, u32)>),
                ErrorKind,
            >((v.0.deep_view(), v.1.deep_view(), final(seen_ipma_keys)@)),
            Err(e) => iprp_of(p@, old(seen_ipma_keys)@) == Err::<
                (Seq<RawPropertyModel>, Seq<ItemPropertyAssociationsModel>, Seq<(u8, u32)>),
                ErrorKind,
            >(e.kind()),
        },
{
    let ghost first = IprpState {
        saw_ipco: false,
        props: Seq::empty(),
        rows: Seq::empty(),
        seen: seen_ipma_keys@,
    };
    let ghost goal = iprp_from(p@, 0, first);
    let mut props: Vec<RawProperty> = Vec::new();
    let mut rows: Vec<ItemPropertyAssociations> = Vec::new();
    let mut saw_ipco: bool = false;
    let mut cursor: usize = 0;
    proof {
        assert(IprpState {
            saw_ipco,
            props: props.deep_view(),
            rows: rows.deep_view(),
            seen: seen_ipma_keys@,
        } =~= first);
    }
    while cursor < p.len()
        invariant
            first == (IprpState {
                saw_ipco: false,
                props: Seq::empty(),
                rows: Seq::empty(),
                seen: old(seen_ipma_keys)@,
            }),
            goal == iprp_from(p@, 0, first),
            goal == iprp_from(
                p@,
                cursor as int,
                IprpState {
                    saw_ipco,
                    props: props.deep_view(),
                    rows: rows.deep_view(),
                    seen: seen_ipma_keys@,
                },
            ),
        decreases p@.len() - cursor,
    {
        let h: BoxHeader = parse_box_header(p, cursor)?;
        proof {
            crate::boxes::lemma_header_inside(p@, cursor as int);
            assert(tags::IPCO[3] != tags::IPMA[3]);
        }
        let body: &[u8] = payload(p, &h);
        if fourcc_eq(&h.box_type, &tags::IPCO) {
            if saw_ipco {
                return Err(HeifError::invalid("iprp carries more than one ipco"));
            }
            saw_ipco = true;
            props = parse_ipco(body)?;
        } else if fourcc_eq(&h.box_type, &tags::IPMA) {
            let mut more: Vec<ItemPropertyAssociations> = parse_ipma(body, seen_ipma_keys)?;
            let ghost before = rows.deep_view();
            let ghost added = more.deep_view();
            rows.append(&mut more);
            proof {
                assert(rows.deep_view() =~= before + added);
            }
        }
        cursor = h.end();
    }
    if !saw_ipco {
        return Err(HeifError::invalid("iprp without ipco"));
    }
    Ok((props, rows))
}

/// The group an `EntityToGroupBox` holds.
pub open spec fn group_of(p: Seq<u8>, t: FourCc) -> Outcome<EntityGroupModel> {
    match full_box(p) {
        None => Err(ErrorKind::Invalid),
        Some((version, flags, b)) => if b.len() < 8 || be32(b, 4) > (b.len() - 8) / 4 {
            Err(ErrorKind::Invalid)
        } else {
            Ok(
                EntityGroupModel {
                    grouping_type: t,
                    version,
                    flags,
                    group_id: be32(b, 0),
                    entity_ids: Seq::new(be32(b, 4) as nat, |i: int| be32(b, 8 + 4 * i)),
                },
            )
        },
    }
}

/// The groups from `pos` on, after those in `acc`.
pub open spec fn groups_from(p: Seq<u8>, pos: int, acc: Seq<EntityGroupModel>) -> Outcome<
    Seq<EntityGroupModel>,
>
    decreases p.len() - pos,
{
    if pos >= p.len() {
        Ok(acc)
    } else {
        match header_at(p, pos) {
            None => Err(ErrorKind::Invalid),
            Some(h) => if acc.len() >= MAX_ENTITY_GROUPS {
                Err(ErrorKind::Exhausted)
            } else if !(pos < h.end_at() <= p.len()) {
                Err(ErrorKind::Invalid)
            } else {
                match group_of(payload_of(p, h), h.box_type) {
                    Err(e) => Err(e),
                    Ok(x) => groups_from(p, h.end_at(), acc.push(x)),
                }
            },
        }
    }
}

/// The groups a `grpl` payload holds.
pub open spec fn grpl_of(p: Seq<u8>) -> Outcome<Seq<EntityGroupModel>> {
    groups_from(p, 0, Seq::empty())
}

fn parse_group(p: &[u8], t: FourCc) -> (res: Result<EntityGroup>)
    ensures
        outcome(res) == group_of(p@, t),
{
    let (version, flags, body) = parse_full_box(p)?;
    let mut r: Reader = Reader::new(body);
    let group_id: u32 = r.u32("EntityToGroupBox group_id")?;
    let n: u32 = r.u32("EntityToGroupBox num_entities_in_group")?;
    if n as u64 > (r.remaining() / 4) as u64 {
        let g: String = fourcc_str(&t);
        let c: String = decimal(n as u64);
        let m: String = decimal(r.remaining() as u64);
        return Err(
            HeifError::invalid(
                concat(
                    &[
                        "EntityToGroupBox '",
                        g.as_str(),
                        "' declares ",
                        c.as_str(),
                        " entities but only ",
                        m.as_str(),
                        " bytes follow",
                    ],
                ),
            ),
        );
    }
    let mut entity_ids: Vec<u32> = Vec::new();
    let mut i: u32 = 0;
    while i < n
        invariant
            i <= n,
            r.wf(),
            r.data() == body@,
            body@.len() >= 8,
            n <= (body@.len() - 8) / 4,
            r.at() == 8 + 4 * i,
            entity_ids@.len() == i,
            forall|k: int| 0 <= k < i ==> entity_ids@[k] == be32(body@, 8 + 4 * k),
        decreases n - i,
    {
        let id: u32 = match r.u32("EntityToGroupBox entity_id") {
            Ok(id) => id,
            Err(e) => {
                assert(false);
                return Err(e);
            },
        };
        entity_ids.push(id);
        i = i + 1;
    }
    let x: EntityGroup = EntityGroup { grouping_type: t, version, flags, group_id, entity_ids };
    proof {
        assert(x@.entity_ids =~= Seq::new(n as nat, |i: int| be32(body@, 8 + 4 * i)));
    }
    Ok(x)
}

/// Parse a `grpl` payload.
pub fn parse_grpl(p: &[u8]) -> (res: Result<Vec<EntityGroup>>)
    ensures
        outcome(res) == grpl_of(p@),
{
    let ghost goal = grpl_of(p@);
    let mut out: Vec<EntityGroup> = Vec::new();
    proof {
        assert(out.deep_view() =~= Seq::empty());
    }
    let mut cursor: usize = 0;
    while cursor < p.len()
        invariant
            goal == grpl_of(p@),
            goal == groups_from(p@, cursor as int, out.deep_view()),
        decreases p@.len() - cursor,
    {
        let h: BoxHeader = parse_box_header(p, cursor)?;
        proof {
            crate::boxes::lemma_header_inside(p@, cursor as int);
        }
        if out.len() >= MAX_ENTITY_GROUPS {
            let n: String = decimal(MAX_ENTITY_GROUPS as u64);
            return Err(
                HeifError::exhausted(concat(&["grpl holds more than ", n.as_str(), " groups"])),
            );
        }
        let x: EntityGroup = parse_group(payload(p, &h), h.box_type)?;
        let ghost before = out.deep_view();
        out.push(x);
        proof {
            assert(out.deep_view() =~= before.push(x@));
        }
        cursor = h.end();
    }
    Ok(out)
}

/// The text at `p`, empty at the end of the bytes.
pub open spec fn text_or_empty(b: Seq<u8>, p: int) -> Seq<char> {
    if p >= b.len() {
        Seq::empty()
    } else {
        cstr_at(b, p)
    }
}

/// The data reference an entry of `dref` is.
pub open spec fn data_reference_of(p: Seq<u8>, t: FourCc) -> Outcome<DataReferenceModel> {
    match full_box(p) {
        None => Err(ErrorKind::Invalid),
        Some((_, flags, b)) => Ok(
            DataReferenceModel {
                entry_type: t,
                self_contained: flags % 2 == 1,
                location: if t == tags::URL {
                    text_or_empty(b, 0)
                } else if t == tags::URN {
                    text_or_empty(b, cstr_end(b, 0))
                } else {
                    Seq::empty()
                },
                name: if t == tags::URN {
                    cstr_at(b, 0)
                } else {
                    Seq::empty()
                },
            },
        ),
    }
}

/// The entries from `pos` on, after those in `acc`, until there are `n` or the
/// bytes end.
pub open spec fn data_references_from(
    b: Seq<u8>,
    pos: int,
    n: int,
    acc: Seq<DataReferenceModel>,
) -> Outcome<Seq<DataReferenceModel>>
    decreases b.len() - pos,
{
    if acc.len() >= n || pos >= b.len() {
        Ok(acc)
    } else {
        match header_at(b, pos) {
            None => Err(ErrorKind::Invalid),
            Some(h) => if !(pos < h.end_at() <= b.len()) {
                Err(ErrorKind::Invalid)
            } else {
                match data_reference_of(payload_of(b, h), h.box_type) {
                    Err(e) => Err(e),
                    Ok(x) => data_references_from(b, h.end_at(), n, acc.push(x)),
                }
            },
        }
    }
}

/// The data references a `dinf` payload lists in its `dref`.
pub open spec fn dinf_of(p: Seq<u8>) -> Outcome<Seq<DataReferenceModel>> {
    match crate::boxes::box_payload(p, tags::DREF) {
        Err(e) => Err(e),
        Ok(None) => Ok(Seq::empty()),
        Ok(Some(dref)) => match full_box(dref) {
            None => Err(ErrorKind::Invalid),
            Some((_, _, b)) => if b.len() < 4 {
                Err(ErrorKind::Invalid)
            } else {
                data_references_from(
                    b.subrange(4, b.len() as int),
                    0,
                    be32(b, 0) as int,
                    Seq::empty(),
                )
            },
        },
    }
}

fn read_text_or_empty(r: &mut Reader, what: &str) -> (res: Result<String>)
    requires
        old(r).wf(),
    ensures
        final(r).wf(),
        final(r).data() == old(r).data(),
        res matches Ok(s) && s@ == text_or_empty(old(r).data(), old(r).at()),
{
    if r.is_empty() {
        Ok(String::new())
    } else {
        r.cstr(what)
    }
}

fn parse_data_reference(p: &[u8], t: FourCc) -> (res: Result<DataReference>)
    ensures
        outcome(res) == data_reference_of(p@, t),
{
    let (_, flags, body) = parse_full_box(p)?;
    let mut r: Reader = Reader::new(body);
    let mut location: String = String::new();
    let mut name: String = String::new();
    proof {
        assert(tags::URL[2] != tags::URN[2]);
    }
    if fourcc_eq(&t, &tags::URL) {
        location = read_text_or_empty(&mut r, "url location")?;
    } else if fourcc_eq(&t, &tags::URN) {
        name = r.cstr("urn name")?;
        location = read_text_or_empty(&mut r, "urn location")?;
    }
    Ok(DataReference { entry_type: t, self_contained: flags % 2 == 1, location, name })
}

/// Parse a `dinf` payload.
pub fn parse_dinf(p: &[u8]) -> (res: Result<Vec<DataReference>>)
    ensures
        outcome(res) == dinf_of(p@),
{
    let mut out: Vec<DataReference> = Vec::new();
    proof {
        assert(out.deep_view() =~= Seq::empty());
    }
    let dref: &[u8] = match find_box(p, &tags::DREF)? {
        Some(x) => x.1,
        None => {
            return Ok(out);
        },
    };
    let (_, _, body) = parse_full_box(dref)?;
    let mut r: Reader = Reader::new(body);
    let n: u32 = r.u32("dref entry_count")?;
    let entries: &[u8] = r.rest();
    let ghost goal = data_references_from(entries@, 0, n as int, Seq::empty());
    let mut cursor: usize = 0;
    while (out.len() as u64) < n as u64 && cursor < entries.len()
        invariant
            dinf_of(p@) == goal,
            goal == data_references_from(entries@, cursor as int, n as int, out.deep_view()),
        decreases entries@.len() - cursor,
    {
        let h: BoxHeader = parse_box_header(entries, cursor)?;
        proof {
            crate::boxes::lemma_header_inside(entries@, cursor as int);
        }
        let x: DataReference = parse_data_reference(payload(entries, &h), h.box_type)?;
        let ghost before = out.deep_view();
        out.push(x);
        proof {
            assert(out.deep_view() =~= before.push(x@));
        }
        cursor = h.end();
    }
    Ok(out)
}

/// The number of protection schemes an `ipro` payload declares.
pub open spec fn ipro_of(p: Seq<u8>) -> Outcome<u16> {
    match full_box(p) {
        None => Err(ErrorKind::Invalid),
        Some((_, _, b)) => if b.len() < 2 {
            Err(ErrorKind::Invalid)
        } else {
            Ok(be16(b, 0))
        },
    }
}

/// Parse an `ipro` payload.
pub fn parse_ipro(p: &[u8]) -> (res: Result<u16>)
    ensures
        plain_outcome(res) == ipro_of(p@),
{
    let (_, _, body) = parse_full_box(p)?;
    let mut r: Reader = Reader::new(body);
    r.u16("ipro protection_count")
}

} // verus!
