//! What the boxes of a `meta` box say is what was written to them.
use crate::boxes::write::{full_body, law_full_box_round_trip};
use crate::boxes::{uint_at, FourCc};
use crate::bytes::rows::{
    lemma_half, lemma_parts, lemma_row, lemma_row_word, lemma_stands, lemma_stands_byte, lemma_stands_half,
    lemma_stands_long, lemma_stands_word, lemma_word, rows, stands,
};
use crate::bytes::{be16, be32, enc16, enc32, enc64};
use crate::error::ErrorKind;
use crate::meta::parse::{
    association_at, associations_at, extents_at, group_of, hdlr_of, id_at, id_width, iloc_of, iloc_sizes,
    infe_of, ipma_of, location_at, locations_at, pitm_of, reference_of, rows_at, IlocSizes,
};
use crate::meta::{
    EntityGroupModel, Extent, ItemLocationModel, ItemPropertyAssociationsModel, ItemReferenceModel,
    PropertyAssociation,
};
use vstd::prelude::*;

verus! {

/// The primary item is the one that was written: two bytes in version 0, four in
/// version 1.
pub proof fn law_primary_item(flags: u32, short: u16, long: u32, rest: Seq<u8>)
    ensures
        pitm_of(full_body(0, flags, enc16(short) + rest)) == Ok::<u32, ErrorKind>(short as u32),
        pitm_of(full_body(1, flags, enc32(long) + rest)) == Ok::<u32, ErrorKind>(long),
{
    law_full_box_round_trip(0, flags, enc16(short) + rest);
    law_full_box_round_trip(1, flags, enc32(long) + rest);
    lemma_half(enc16(short) + rest, 0, short);
    lemma_word(enc32(long) + rest, 0, long);
}

/// The handler of a `meta` box is the one that was written, behind four bytes.
pub proof fn law_meta_handler(version: u8, flags: u32, before: u32, handler: FourCc, rest: Seq<u8>)
    requires
        rest.len() >= 12,
    ensures
        hdlr_of(full_body(version, flags, enc32(before) + handler@ + rest)) matches Ok(h)
            && h.handler_type == handler,
{
    let b = enc32(before) + handler@ + rest;
    law_full_box_round_trip(version, flags, b);
    assert(crate::boxes::fourcc_at(b, 4) =~= handler);
}

/// The entry of an item has the id, the protection index and the type that were
/// written, in this order, and its flags; the id is of two bytes in version 2 and of four
/// in version 3.
pub proof fn law_item_info(version: u8, flags: u32, id: u32, protection: u16, t: FourCc, rest: Seq<u8>)
    requires
        version == 2 || version == 3,
        version == 2 ==> id <= 0xffff,
        flags < 0x100_0000,
    ensures
        ({
            let front = if version == 2 {
                enc16(id as u16)
            } else {
                enc32(id)
            };
            infe_of(full_body(version, flags, front + enc16(protection) + t@ + rest)) matches Ok(x) && {
                &&& x.id == id
                &&& x.protection_index == protection
                &&& x.item_type == t
                &&& x.flags == flags
                &&& x.version == version
            }
        }),
{
    let front = if version == 2 {
        enc16(id as u16)
    } else {
        enc32(id)
    };
    let b = front + enc16(protection) + t@ + rest;
    let n = front.len() as int;
    law_full_box_round_trip(version, flags, b);
    if version == 2 {
        lemma_half(b, 0, id as u16);
    } else {
        lemma_word(b, 0, id);
    }
    lemma_half(b, n, protection);
    assert(crate::boxes::fourcc_at(b, n + 2) =~= t);
}

/// A reference gives back its source and its targets as they were written, with ids of
/// two bytes in version 0 and of four in version 1.
#[verifier::rlimit(40)]
pub proof fn law_item_reference(t: FourCc, short: (u16, Seq<u16>), long: (u32, Seq<u32>))
    requires
        short.1.len() <= 0xffff,
        long.1.len() <= 0xffff,
    ensures
        reference_of(
            enc32(long.0) + enc16(long.1.len() as u16) + rows(
                long.1.len(),
                4,
                |i: int| enc32(long.1[i]),
            ),
            1,
            t,
        ) == Ok::<ItemReferenceModel, ErrorKind>(
            (ItemReferenceModel {
                reference_type: t,
                from_item_id: long.0,
                to_item_ids: long.1,
            }),
        ),
        reference_of(
            enc16(short.0) + enc16(short.1.len() as u16) + rows(
                short.1.len(),
                2,
                |i: int| enc16(short.1[i]),
            ),
            0,
            t,
        ) == Ok::<ItemReferenceModel, ErrorKind>(
            (ItemReferenceModel {
                reference_type: t,
                from_item_id: short.0 as u32,
                to_item_ids: Seq::new(short.1.len(), |i: int| short.1[i] as u32),
            }),
        ),
{
    lemma_long_reference(t, long.0, long.1);
    lemma_short_reference(t, short.0, short.1);
}

proof fn lemma_long_reference(t: FourCc, from: u32, to: Seq<u32>)
    requires
        to.len() <= 0xffff,
    ensures
        reference_of(
            enc32(from) + enc16(to.len() as u16) + rows(to.len(), 4, |i: int| enc32(to[i])),
            1,
            t,
        ) == Ok::<ItemReferenceModel, ErrorKind>(
            (ItemReferenceModel { reference_type: t, from_item_id: from, to_item_ids: to }),
        ),
{
    let n = to.len();
    let row = |i: int| enc32(to[i]);
    let head = enc32(from) + enc16(n as u16);
    let p = head + rows(n, 4, row);
    assert(be32(p, 0) == from && be16(p, 4) == n) by {
        assert forall|i: int| 0 <= i < 6 implies #[trigger] p[i] == head[i] by {}
        assert(p[0] == head[0] && p[1] == head[1] && p[2] == head[2] && p[3] == head[3]);
        assert(p[4] == head[4] && p[5] == head[5]);
        lemma_word(p, 0, from);
        lemma_half(p, 4, n as u16);
    }
    assert(p.len() == 6 + n * 4);
    let got = Seq::new(n, |i: int| id_at(p, 6, 1, i));
    assert forall|i: int| 0 <= i < n implies #[trigger] got[i] == to[i] by {
        lemma_row_word(head, n, 4, row, i, 0, to[i]);
    }
    assert(got =~= to);
}

proof fn lemma_short_reference(t: FourCc, from: u16, to: Seq<u16>)
    requires
        to.len() <= 0xffff,
    ensures
        reference_of(
            enc16(from) + enc16(to.len() as u16) + rows(to.len(), 2, |i: int| enc16(to[i])),
            0,
            t,
        ) == Ok::<ItemReferenceModel, ErrorKind>(
            (ItemReferenceModel {
                reference_type: t,
                from_item_id: from as u32,
                to_item_ids: Seq::new(to.len(), |i: int| to[i] as u32),
            }),
        ),
{
    let n = to.len();
    let row = |i: int| enc16(to[i]);
    let head = enc16(from) + enc16(n as u16);
    let p = head + rows(n, 2, row);
    assert(be16(p, 0) == from && be16(p, 2) == n) by {
        assert forall|i: int| 0 <= i < 4 implies #[trigger] p[i] == head[i] by {}
        assert(p[0] == head[0] && p[1] == head[1] && p[2] == head[2] && p[3] == head[3]);
        lemma_half(p, 0, from);
        lemma_half(p, 2, n as u16);
    }
    assert(p.len() == 4 + n * 2);
    let got = Seq::new(n, |i: int| id_at(p, 4, 0, i));
    let want = Seq::new(n, |i: int| to[i] as u32);
    assert forall|i: int| 0 <= i < n implies #[trigger] got[i] == want[i] by {
        lemma_row(head, n, 2, row, i, 0);
        lemma_row(head, n, 2, row, i, 1);
        lemma_half(p, 4 + 2 * i, to[i]);
    }
    assert(got =~= want);
}

/// An entity group gives back its id and its entities as they were written.
pub proof fn law_entity_group(t: FourCc, version: u8, flags: u32, group: u32, entities: Seq<u32>)
    requires
        entities.len() <= u32::MAX,
        flags < 0x100_0000,
    ensures
        group_of(
            full_body(
                version,
                flags,
                enc32(group) + enc32(entities.len() as u32) + rows(
                    entities.len(),
                    4,
                    |i: int| enc32(entities[i]),
                ),
            ),
            t,
        ) == Ok::<EntityGroupModel, ErrorKind>(
            (EntityGroupModel {
                grouping_type: t,
                version,
                flags,
                group_id: group,
                entity_ids: entities,
            }),
        ),
{
    let n = entities.len();
    let row = |i: int| enc32(entities[i]);
    let head = enc32(group) + enc32(n as u32);
    let b = head + rows(n, 4, row);
    law_full_box_round_trip(version, flags, b);
    assert(be32(b, 0) == group && be32(b, 4) == n) by {
        assert forall|i: int| 0 <= i < 8 implies #[trigger] b[i] == head[i] by {}
        assert(b[0] == head[0] && b[1] == head[1] && b[2] == head[2] && b[3] == head[3]);
        assert(b[4] == head[4] && b[5] == head[5] && b[6] == head[6] && b[7] == head[7]);
        lemma_word(b, 0, group);
        lemma_word(b, 4, n as u32);
    }
    assert(rows(n, 4, row).len() == 4 * n);
    assert((b.len() - 8) / 4 == n);
    let got = Seq::new(n, |i: int| be32(b, 8 + 4 * i));
    assert forall|i: int| 0 <= i < n implies #[trigger] got[i] == entities[i] by {
        lemma_row_word(head, n, 4, row, i, 0, entities[i]);
    }
    assert(got =~= entities);
}

/// A number in `w` bytes: none, four or eight.
#[verifier::opaque]
pub open spec fn sized(v: u64, w: int) -> Seq<u8> {
    if w == 4 {
        enc32(v as u32)
    } else if w == 8 {
        enc64(v)
    } else {
        Seq::empty()
    }
}

/// A number can be written in `w` bytes.
pub open spec fn holds(v: u64, w: int) -> bool {
    w == 8 || (w == 4 && v <= u32::MAX) || (w == 0 && v == 0)
}

proof fn lemma_sized(b: Seq<u8>, p: int, v: u64, w: int)
    requires
        holds(v, w),
        stands(b, p, sized(v, w)),
    ensures
        uint_at(b, p, w) == v,
        sized(v, w).len() == w,
{
    reveal(sized);
    if w == 4 {
        lemma_stands_word(b, p, v as u32);
    } else if w == 8 {
        lemma_stands_long(b, p, v);
    }
}

/// The bytes of an extent: index, offset and length.
#[verifier::opaque]
pub open spec fn extent_bytes(e: Extent, z: IlocSizes) -> Seq<u8> {
    sized(e.index, z.index_size as int) + sized(e.offset, z.offset_size as int) + sized(
        e.length,
        z.length_size as int,
    )
}

/// An extent can be written with fields of the given widths.
pub open spec fn extent_fits(e: Extent, z: IlocSizes) -> bool {
    holds(e.index, z.index_size as int) && holds(e.offset, z.offset_size as int) && holds(
        e.length,
        z.length_size as int,
    )
}

/// The bytes of extents, one after the other.
pub open spec fn extents_bytes(e: Seq<Extent>, z: IlocSizes) -> Seq<u8>
    decreases e.len(),
{
    if e.len() == 0 {
        Seq::empty()
    } else {
        extent_bytes(e[0], z) + extents_bytes(e.drop_first(), z)
    }
}

proof fn lemma_extent(b: Seq<u8>, p: int, e: Extent, z: IlocSizes)
    requires
        extent_fits(e, z),
        stands(b, p, extent_bytes(e, z)),
    ensures
        uint_at(b, p, z.index_size as int) == e.index,
        uint_at(b, p + z.index_size, z.offset_size as int) == e.offset,
        uint_at(b, p + z.index_size + z.offset_size, z.length_size as int) == e.length,
        extent_bytes(e, z).len() == z.extent_len(),
{
    reveal(extent_bytes);
    let (i, o, l) = (
        sized(e.index, z.index_size as int),
        sized(e.offset, z.offset_size as int),
        sized(e.length, z.length_size as int),
    );
    lemma_parts(b, p, i + o, l);
    lemma_parts(b, p, i, o);
    lemma_sized(b, p, e.index, z.index_size as int);
    lemma_sized(b, p + i.len(), e.offset, z.offset_size as int);
    lemma_sized(b, p + i.len() + o.len(), e.length, z.length_size as int);
}

proof fn lemma_extents(b: Seq<u8>, p: int, e: Seq<Extent>, z: IlocSizes, acc: Seq<Extent>)
    requires
        forall|i: int| 0 <= i < e.len() ==> extent_fits(#[trigger] e[i], z),
        stands(b, p, extents_bytes(e, z)),
    ensures
        extents_at(b, p, e.len() as int, z, acc) == Ok::<(Seq<Extent>, int), ErrorKind>(
            (acc + e, p + extents_bytes(e, z).len()),
        ),
    decreases e.len(),
{
    if e.len() > 0 {
        let rest = e.drop_first();
        assert forall|i: int| 0 <= i < rest.len() implies extent_fits(#[trigger] rest[i], z) by {
            assert(rest[i] == e[i + 1]);
        }
        let (x, y) = (extent_bytes(e[0], z), extents_bytes(rest, z));
        lemma_parts(b, p, x, y);
        lemma_extent(b, p, e[0], z);
        lemma_extents(b, p + x.len(), rest, z, acc.push(e[0]));
        assert(acc.push(e[0]) + rest =~= acc + e);
    } else {
        assert(acc + e =~= acc);
    }
}

/// The id of an item, of four bytes from version 2 on.
#[verifier::opaque]
pub open spec fn location_id(id: u32, version: u8) -> Seq<u8> {
    if version < 2 {
        enc16(id as u16)
    } else {
        enc32(id)
    }
}

/// The construction method, from version 1 on.
#[verifier::opaque]
pub open spec fn location_method(method: u8, version: u8) -> Seq<u8> {
    if version >= 1 {
        enc16(method as u16)
    } else {
        Seq::empty()
    }
}

/// The bytes of a location: id, construction method, data reference, base offset, number of
/// extents, extents.
#[verifier::opaque]
pub open spec fn location_bytes(l: ItemLocationModel, z: IlocSizes) -> Seq<u8> {
    location_id(l.item_id, z.version) + location_method(l.construction_method, z.version) + enc16(
        l.data_reference_index,
    ) + sized(l.base_offset, z.base_offset_size as int) + enc16(l.extents.len() as u16)
        + extents_bytes(l.extents, z)
}

/// A location can be written in a box of the given version and widths.
pub open spec fn location_fits(l: ItemLocationModel, z: IlocSizes) -> bool {
    &&& z.version < 2 ==> l.item_id <= 0xffff
    &&& l.construction_method <= 2
    &&& z.version == 0 ==> l.construction_method == 0
    &&& holds(l.base_offset, z.base_offset_size as int)
    &&& l.extents.len() <= 0xffff
    &&& forall|i: int| 0 <= i < l.extents.len() ==> extent_fits(#[trigger] l.extents[i], z)
}

proof fn lemma_location_id(b: Seq<u8>, p: int, id: u32, version: u8)
    requires
        version < 2 ==> id <= 0xffff,
        stands(b, p, location_id(id, version)),
    ensures
        version < 2 ==> be16(b, p) == id && location_id(id, version).len() == 2,
        version >= 2 ==> be32(b, p) == id && location_id(id, version).len() == 4,
{
    reveal(location_id);
    if version < 2 {
        lemma_stands_half(b, p, id as u16);
    } else {
        lemma_stands_word(b, p, id);
    }
}

proof fn lemma_location_method(b: Seq<u8>, p: int, method: u8, version: u8)
    requires
        stands(b, p, location_method(method, version)),
    ensures
        version >= 1 ==> be16(b, p) == method && location_method(method, version).len() == 2,
        version < 1 ==> location_method(method, version).len() == 0,
{
    reveal(location_method);
    if version >= 1 {
        lemma_stands_half(b, p, method as u16);
    }
}

#[verifier::rlimit(60)]
proof fn lemma_location(b: Seq<u8>, p: int, l: ItemLocationModel, z: IlocSizes)
    requires
        location_fits(l, z),
        z.version <= 2,
        stands(b, p, location_bytes(l, z)),
    ensures
        location_at(b, p, z) == Ok::<(ItemLocationModel, int), ErrorKind>(
            (l, p + location_bytes(l, z).len()),
        ),
{
    reveal(location_bytes);
    let i = location_id(l.item_id, z.version);
    let m = location_method(l.construction_method, z.version);
    let d = enc16(l.data_reference_index);
    let o = sized(l.base_offset, z.base_offset_size as int);
    let n = enc16(l.extents.len() as u16);
    let e = extents_bytes(l.extents, z);
    lemma_parts(b, p, i + m + d + o + n, e);
    lemma_parts(b, p, i + m + d + o, n);
    lemma_parts(b, p, i + m + d, o);
    lemma_parts(b, p, i + m, d);
    lemma_parts(b, p, i, m);
    lemma_location_id(b, p, l.item_id, z.version);
    lemma_location_method(b, p + i.len(), l.construction_method, z.version);
    let q = p + i.len() + m.len();
    lemma_stands_half(b, q, l.data_reference_index);
    lemma_sized(b, q + 2, l.base_offset, z.base_offset_size as int);
    lemma_stands_half(b, q + 2 + z.base_offset_size, l.extents.len() as u16);
    lemma_extents(b, q + 4 + z.base_offset_size, l.extents, z, Seq::empty());
    assert(Seq::<Extent>::empty() + l.extents =~= l.extents);
}

/// The bytes of locations, one after the other.
pub open spec fn locations_bytes(l: Seq<ItemLocationModel>, z: IlocSizes) -> Seq<u8>
    decreases l.len(),
{
    if l.len() == 0 {
        Seq::empty()
    } else {
        location_bytes(l[0], z) + locations_bytes(l.drop_first(), z)
    }
}

proof fn lemma_locations(
    b: Seq<u8>,
    p: int,
    l: Seq<ItemLocationModel>,
    z: IlocSizes,
    acc: Seq<ItemLocationModel>,
)
    requires
        forall|i: int| 0 <= i < l.len() ==> location_fits(#[trigger] l[i], z),
        z.version <= 2,
        stands(b, p, locations_bytes(l, z)),
    ensures
        locations_at(b, p, l.len() as int, z, acc) == Ok::<Seq<ItemLocationModel>, ErrorKind>(
            acc + l,
        ),
    decreases l.len(),
{
    if l.len() > 0 {
        let rest = l.drop_first();
        assert forall|i: int| 0 <= i < rest.len() implies location_fits(#[trigger] rest[i], z) by {
            assert(rest[i] == l[i + 1]);
        }
        let (x, y) = (location_bytes(l[0], z), locations_bytes(rest, z));
        lemma_parts(b, p, x, y);
        lemma_location(b, p, l[0], z);
        lemma_locations(b, p + x.len(), rest, z, acc.push(l[0]));
        assert(acc.push(l[0]) + rest =~= acc + l);
    } else {
        assert(acc + l =~= acc);
    }
}

/// An item location box gives back the locations that were written: the widths of its fields
/// in four half bytes (offset, length, base offset, index), the number of
/// items, then the locations.
#[verifier::rlimit(60)]
pub proof fn law_item_locations(flags: u32, l: Seq<ItemLocationModel>, z: IlocSizes, rest: Seq<u8>)
    requires
        z.version <= 2,
        z.wf(),
        z.version == 0 ==> z.index_size == 0,
        l.len() <= 0xffff,
        forall|i: int| 0 <= i < l.len() ==> location_fits(#[trigger] l[i], z),
    ensures
        ({
            let widths = seq![
                (16 * z.offset_size + z.length_size) as u8,
                (16 * z.base_offset_size + z.index_size) as u8,
            ];
            let count = if z.version < 2 {
                enc16(l.len() as u16)
            } else {
                enc32(l.len() as u32)
            };
            iloc_of(full_body(z.version, flags, widths + count + locations_bytes(l, z) + rest)) == Ok::<
                Seq<ItemLocationModel>,
                ErrorKind,
            >(l)
        }),
{
    let widths = seq![
        (16 * z.offset_size + z.length_size) as u8,
        (16 * z.base_offset_size + z.index_size) as u8,
    ];
    let count = if z.version < 2 {
        enc16(l.len() as u16)
    } else {
        enc32(l.len() as u32)
    };
    let head = widths + count;
    let b = head + locations_bytes(l, z) + rest;
    law_full_box_round_trip(z.version, flags, b);
    lemma_stands(head, locations_bytes(l, z), rest);
    lemma_locations(b, head.len() as int, l, z, Seq::empty());
    assert(Seq::<ItemLocationModel>::empty() + l =~= l);
    assert(b[0] == widths[0] && b[1] == widths[1]);
    assert(iloc_sizes(z.version, b) == z);
    assert(head.len() == if z.version < 2 {
        4
    } else {
        6int
    });
    if z.version < 2 {
        lemma_half(b, 2, l.len() as u16);
    } else {
        lemma_word(b, 2, l.len() as u32);
    }
}

/// The bytes of an association: the mark in the highest bit, then the index; one byte, or
/// two when `large`.
#[verifier::opaque]
pub open spec fn association_bytes(a: PropertyAssociation, large: bool) -> Seq<u8> {
    if large {
        enc16(
            (a.index + (if a.essential {
                0x8000int
            } else {
                0
            })) as u16,
        )
    } else {
        seq![
            (a.index + (if a.essential {
                0x80int
            } else {
                0
            })) as u8,
        ]
    }
}

/// An association that names a property and can be written.
pub open spec fn association_fits(a: PropertyAssociation, large: bool) -> bool {
    1 <= a.index && if large {
        a.index < 0x8000
    } else {
        a.index < 0x80
    }
}

/// The bytes of associations, one after the other.
pub open spec fn associations_bytes(v: Seq<PropertyAssociation>, large: bool) -> Seq<u8>
    decreases v.len(),
{
    if v.len() == 0 {
        Seq::empty()
    } else {
        association_bytes(v[0], large) + associations_bytes(v.drop_first(), large)
    }
}

proof fn lemma_association(b: Seq<u8>, p: int, x: PropertyAssociation, large: bool)
    requires
        association_fits(x, large),
        stands(b, p, association_bytes(x, large)),
    ensures
        association_at(b, p, large) == x,
        association_bytes(x, large).len() == (if large {
            2int
        } else {
            1
        }),
{
    reveal(association_bytes);
    if large {
        let v = x.index + (if x.essential {
            0x8000int
        } else {
            0
        });
        lemma_stands_half(b, p, v as u16);
    } else {
        let v = x.index + (if x.essential {
            0x80int
        } else {
            0
        });
        lemma_stands_byte(b, p, v as u8);
    }
}

proof fn lemma_associations(
    b: Seq<u8>,
    p: int,
    v: Seq<PropertyAssociation>,
    large: bool,
    acc: Seq<PropertyAssociation>,
)
    requires
        forall|i: int| 0 <= i < v.len() ==> association_fits(#[trigger] v[i], large),
        stands(b, p, associations_bytes(v, large)),
    ensures
        associations_at(b, p, v.len() as int, large, acc) == Ok::<
            (Seq<PropertyAssociation>, int),
            ErrorKind,
        >((acc + v, p + associations_bytes(v, large).len())),
    decreases v.len(),
{
    if v.len() > 0 {
        let rest = v.drop_first();
        assert forall|i: int| 0 <= i < rest.len() implies association_fits(
            #[trigger] rest[i],
            large,
        ) by {
            assert(rest[i] == v[i + 1]);
        }
        let (x, y) = (association_bytes(v[0], large), associations_bytes(rest, large));
        lemma_parts(b, p, x, y);
        lemma_association(b, p, v[0], large);
        lemma_associations(b, p + x.len(), rest, large, acc.push(v[0]));
        assert(acc.push(v[0]) + rest =~= acc + v);
    } else {
        assert(acc + v =~= acc);
    }
}

/// The bytes of the associations of an item: its id, their number, the associations.
#[verifier::opaque]
pub open spec fn row_bytes(r: ItemPropertyAssociationsModel, version: u8, large: bool) -> Seq<u8> {
    (if version == 0 {
        enc16(r.item_id as u16)
    } else {
        enc32(r.item_id)
    }) + seq![r.entries.len() as u8] + associations_bytes(r.entries, large)
}

/// The bytes of the rows of an association box.
pub open spec fn all_rows_bytes(v: Seq<ItemPropertyAssociationsModel>, version: u8, large: bool) -> Seq<u8>
    decreases v.len(),
{
    if v.len() == 0 {
        Seq::empty()
    } else {
        row_bytes(v[0], version, large) + all_rows_bytes(v.drop_first(), version, large)
    }
}

/// The associations of an item can be written.
pub open spec fn row_fits(r: ItemPropertyAssociationsModel, version: u8, large: bool) -> bool {
    &&& version == 0 ==> r.item_id <= 0xffff
    &&& r.entries.len() <= 0xff
    &&& forall|i: int| 0 <= i < r.entries.len() ==> association_fits(#[trigger] r.entries[i], large)
}

proof fn lemma_row_id(b: Seq<u8>, p: int, r: ItemPropertyAssociationsModel, version: u8, large: bool)
    requires
        version <= 1,
        row_fits(r, version, large),
        stands(b, p, row_bytes(r, version, large)),
    ensures
        id_at(b, p, version, 0) == r.item_id,
        b[p + id_width(version)] == r.entries.len(),
        associations_at(b, p + id_width(version) + 1, r.entries.len() as int, large, Seq::empty())
            == Ok::<(Seq<PropertyAssociation>, int), ErrorKind>(
            (r.entries, p + row_bytes(r, version, large).len()),
        ),
        p + id_width(version) + 1 <= b.len(),
{
    reveal(row_bytes);
    let id = if version == 0 {
        enc16(r.item_id as u16)
    } else {
        enc32(r.item_id)
    };
    let n = seq![r.entries.len() as u8];
    let e = associations_bytes(r.entries, large);
    lemma_parts(b, p, id + n, e);
    lemma_parts(b, p, id, n);
    if version == 0 {
        lemma_stands_half(b, p, r.item_id as u16);
    } else {
        lemma_stands_word(b, p, r.item_id);
    }
    lemma_stands_byte(b, p + id.len(), r.entries.len() as u8);
    lemma_associations(b, p + id.len() + 1, r.entries, large, Seq::empty());
    assert(Seq::<PropertyAssociation>::empty() + r.entries =~= r.entries);
}

proof fn lemma_rows(
    b: Seq<u8>,
    p: int,
    v: Seq<ItemPropertyAssociationsModel>,
    version: u8,
    large: bool,
    last: Option<u32>,
    acc: Seq<ItemPropertyAssociationsModel>,
)
    requires
        version <= 1,
        forall|i: int| 0 <= i < v.len() ==> row_fits(#[trigger] v[i], version, large),
        forall|i: int, j: int|
            0 <= i < j < v.len() ==> (#[trigger] v[i]).item_id < (#[trigger] v[j]).item_id,
        v.len() > 0 ==> (last matches Some(prev) ==> prev < v[0].item_id),
        stands(b, p, all_rows_bytes(v, version, large)),
    ensures
        rows_at(b, p, v.len() as int, version, large, last, acc) == Ok::<
            Seq<ItemPropertyAssociationsModel>,
            ErrorKind,
        >(acc + v),
    decreases v.len(),
{
    if v.len() > 0 {
        let rest = v.drop_first();
        assert forall|i: int| 0 <= i < rest.len() implies row_fits(
            #[trigger] rest[i],
            version,
            large,
        ) && rest[i].item_id > v[0].item_id by {
            assert(rest[i] == v[i + 1]);
        }
        assert forall|i: int, j: int| 0 <= i < j < rest.len() implies (#[trigger] rest[i]).item_id < (
        #[trigger] rest[j]).item_id by {
            assert(rest[i] == v[i + 1] && rest[j] == v[j + 1]);
        }
        let (x, y) = (row_bytes(v[0], version, large), all_rows_bytes(rest, version, large));
        lemma_parts(b, p, x, y);
        lemma_row_id(b, p, v[0], version, large);
        lemma_rows(b, p + x.len(), rest, version, large, Some(v[0].item_id), acc.push(v[0]));
        let row = ItemPropertyAssociationsModel { item_id: v[0].item_id, entries: v[0].entries };
        assert(row == v[0]);
        assert(acc.push(v[0]) + rest =~= acc + v);
    } else {
        assert(acc + v =~= acc);
    }
}

/// An association box gives back the rows that were written, of rising items: ids of two bytes
/// in version 0 and of four in version 1, associations of two bytes when flag 1 is set, else
/// of one.
#[verifier::rlimit(40)]
pub proof fn law_associations(
    version: u8,
    flags: u32,
    v: Seq<ItemPropertyAssociationsModel>,
    seen: Seq<(u8, u32)>,
    rest: Seq<u8>,
)
    requires
        version <= 1,
        flags < 0x100_0000,
        !seen.contains((version, flags)),
        v.len() <= crate::meta::MAX_ITEMS,
        forall|i: int| 0 <= i < v.len() ==> row_fits(#[trigger] v[i], version, flags % 2 == 1),
        forall|i: int, j: int|
            0 <= i < j < v.len() ==> (#[trigger] v[i]).item_id < (#[trigger] v[j]).item_id,
    ensures
        ipma_of(
            full_body(
                version,
                flags,
                enc32(v.len() as u32) + all_rows_bytes(v, version, flags % 2 == 1) + rest,
            ),
            seen,
        ) == Ok::<(Seq<ItemPropertyAssociationsModel>, Seq<(u8, u32)>), ErrorKind>(
            (v, seen.push((version, flags))),
        ),
{
    let large = flags % 2 == 1;
    let head = enc32(v.len() as u32);
    let b = head + all_rows_bytes(v, version, large) + rest;
    law_full_box_round_trip(version, flags, b);
    lemma_stands(head, all_rows_bytes(v, version, large), rest);
    lemma_rows(b, 4, v, version, large, None, Seq::empty());
    lemma_word(b, 0, v.len() as u32);
    assert(Seq::<ItemPropertyAssociationsModel>::empty() + v =~= v);
}

} // verus!
