//! Laws of the data of items.
use crate::error::ErrorKind;
use crate::file::{extent_span, item_in, joined, spans_from, FileModel};
use crate::meta::{Extent, ItemLocationModel};
use vstd::prelude::*;

verus! {

/// An item without extents has no data.
pub proof fn law_no_extents(loc: ItemLocationModel, source: Seq<u8>)
    requires
        loc.extents.len() == 0,
    ensures
        item_in(loc, source) == Ok::<Seq<u8>, ErrorKind>(Seq::empty()),
{
}

/// The location with one extent more.
pub open spec fn with_extent(loc: ItemLocationModel, e: Extent) -> ItemLocationModel {
    ItemLocationModel { extents: loc.extents.push(e), ..loc }
}

proof fn lemma_spans_more(
    loc: ItemLocationModel,
    e: Extent,
    source: Seq<u8>,
    i: int,
    total: int,
    acc: Seq<(usize, usize)>,
    span: (int, int),
)
    requires
        0 <= i <= loc.extents.len(),
        total == joined(source, acc).len(),
        source.len() <= usize::MAX,
        extent_span(loc.base_offset, e, source.len()) == Some(span),
    ensures
        ({
            let more = with_extent(loc, e);
            match (
                spans_from(loc, source.len(), i, total, acc),
                spans_from(more, source.len(), i, total, acc),
            ) {
                (Ok(v), Ok(w)) => w == v.push((span.0 as usize, span.1 as usize)),
                (Ok(v), Err(k)) => k == ErrorKind::Exhausted,
                (Err(k), other) => other == Err::<Seq<(usize, usize)>, ErrorKind>(k),
            }
        }),
    decreases loc.extents.len() - i,
{
    let more = with_extent(loc, e);
    if i < loc.extents.len() {
        assert(more.extents[i] == loc.extents[i]);
        if let Some((start, end)) = extent_span(loc.base_offset, loc.extents[i], source.len()) {
            let next = acc.push((start as usize, end as usize));
            assert(next.drop_last() =~= acc);
            lemma_spans_more(loc, e, source, i + 1, total + (end - start), next, span);
        }
    } else {
        assert(more.extents[i] == e);
        let next = acc.push((span.0 as usize, span.1 as usize));
        assert(spans_from(more, source.len(), i + 1, total + (span.1 - span.0), next) == Ok::<
            Seq<(usize, usize)>,
            ErrorKind,
        >(next));
    }
}

/// The data of an item are those of its extents, one after the other: one extent more adds the
/// bytes of the source from its offset, behind the base offset, over its length, or to the
/// end of the source for length 0.
pub proof fn law_extent_adds_its_bytes(loc: ItemLocationModel, e: Extent, source: Seq<u8>, a: Seq<u8>, b: Seq<u8>)
    requires
        source.len() <= usize::MAX,
        item_in(loc, source) == Ok::<Seq<u8>, ErrorKind>(a),
        item_in(with_extent(loc, e), source) == Ok::<Seq<u8>, ErrorKind>(b),
        loc.base_offset + e.offset <= source.len(),
        loc.base_offset + e.offset + e.length <= source.len(),
    ensures
        e.length > 0 ==> b == a + source.subrange(
            loc.base_offset + e.offset,
            loc.base_offset + e.offset + e.length,
        ),
        e.length == 0 ==> b == a + source.skip(loc.base_offset + e.offset),
{
    let start = loc.base_offset + e.offset;
    let end = if e.length == 0 {
        source.len() as int
    } else {
        start + e.length
    };
    lemma_spans_more(loc, e, source, 0, 0, Seq::empty(), (start, end));
    let v = spans_from(loc, source.len(), 0, 0, Seq::empty())->Ok_0;
    assert(v.push((start as usize, end as usize)).drop_last() =~= v);
    if e.length == 0 {
        assert(source.subrange(start, end) =~= source.skip(start));
    }
}

/// An item is refused when an extent leaves its source, and only its own source is read: the
/// file for method 0, the `idat` box for method 1.
pub proof fn law_item_source(f: FileModel, id: u32)
    requires
        f.meta matches Some(m) && m.location(id) is Some && m.location(id)->0.extents.len() > 0,
    ensures
        ({
            let m = f.meta->0;
            let loc = m.location(id)->0;
            &&& loc.construction_method == 0 && m.self_contained(loc) ==> f.item_bytes(id) == item_in(
                loc,
                f.data,
            )
            &&& loc.construction_method == 0 && !m.self_contained(loc) ==> f.item_bytes(id) is Err
            &&& loc.construction_method == 1 ==> f.item_bytes(id) == (match m.idat {
                Some(d) => item_in(loc, d),
                None => Err(ErrorKind::Invalid),
            })
            &&& loc.construction_method > 2 ==> f.item_bytes(id) is Err
        }),
{
}

} // verus!
