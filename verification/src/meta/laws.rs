//! Laws of the lookups in a `meta` box.
use crate::boxes::FourCc;
use crate::meta::{
    entries_of, first_item, first_location, groups_with, ids_distinct, named_properties, sources, targets,
    EntityGroupModel, ItemInfoModel, ItemLocationModel, ItemPropertyAssociationsModel, ItemReferenceModel,
    MetaModel, PropertyAssociation, RawPropertyModel,
};
use vstd::prelude::*;

verus! {

proof fn lemma_first_item(items: Seq<ItemInfoModel>, id: u32)
    ensures
        first_item(items, id) matches Some(x) ==> exists|i: int|
            0 <= i < items.len() && #[trigger] items[i] == x && x.id == id && forall|j: int|
                0 <= j < i ==> (#[trigger] items[j]).id != id,
        first_item(items, id) is None ==> forall|i: int|
            0 <= i < items.len() ==> (#[trigger] items[i]).id != id,
    decreases items.len(),
{
    if items.len() > 0 {
        if items[0].id != id {
            let rest = items.drop_first();
            lemma_first_item(rest, id);
            assert forall|k: int| 0 <= k < rest.len() implies #[trigger] rest[k] == items[k + 1] by {}
            if let Some(x) = first_item(items, id) {
                let i = choose|i: int|
                    0 <= i < rest.len() && #[trigger] rest[i] == x && x.id == id && forall|j: int|
                        0 <= j < i ==> (#[trigger] rest[j]).id != id;
                assert(items[i + 1] == x);
                assert forall|j: int| 0 <= j < i + 1 implies (#[trigger] items[j]).id != id by {
                    if j > 0 {
                        assert(rest[j - 1] == items[j]);
                    }
                }
            } else {
                assert forall|i: int| 0 <= i < items.len() implies (#[trigger] items[i]).id != id by {
                    if i > 0 {
                        assert(rest[i - 1] == items[i]);
                    }
                }
            }
        } else {
            assert(items[0] == first_item(items, id)->0);
        }
    }
}

/// An item is found by its id: what is found has the id, the first one of a kind; and
/// nothing is found exactly when no item has it.
pub proof fn law_item_by_id(m: MetaModel, id: u32)
    ensures
        m.item(id) matches Some(x) ==> x.id == id && m.items.contains(x),
        m.item(id) is None <==> forall|i: int| 0 <= i < m.items.len() ==> (#[trigger] m.items[i]).id != id,
        ids_distinct(m.items) ==> forall|i: int|
            0 <= i < m.items.len() && (#[trigger] m.items[i]).id == id ==> m.item(id) == Some(
                m.items[i],
            ),
{
    lemma_first_item(m.items, id);
}

proof fn lemma_first_location(l: Seq<ItemLocationModel>, id: u32)
    ensures
        first_location(l, id) matches Some(x) ==> x.item_id == id && l.contains(x),
        first_location(l, id) is None <==> forall|i: int|
            0 <= i < l.len() ==> (#[trigger] l[i]).item_id != id,
        forall|i: int|
            0 <= i < l.len() && (#[trigger] l[i]).item_id == id && (forall|j: int|
                0 <= j < i ==> (#[trigger] l[j]).item_id != id) ==> first_location(l, id) == Some(
                l[i],
            ),
    decreases l.len(),
{
    if l.len() > 0 {
        let rest = l.drop_first();
        lemma_first_location(rest, id);
        assert forall|k: int| 0 <= k < rest.len() implies #[trigger] rest[k] == l[k + 1] by {}
        if l[0].item_id != id {
            if let Some(x) = first_location(rest, id) {
                let i = choose|i: int| 0 <= i < rest.len() && rest[i] == x;
                assert(l[i + 1] == x);
            } else {
                assert forall|i: int| 0 <= i < l.len() implies (#[trigger] l[i]).item_id != id by {
                    if i > 0 {
                        assert(rest[i - 1] == l[i]);
                    }
                }
            }
            assert forall|i: int|
                0 <= i < l.len() && (#[trigger] l[i]).item_id == id && (forall|j: int|
                    0 <= j < i ==> (#[trigger] l[j]).item_id != id) implies first_location(l, id)
                == Some(l[i]) by {
                assert(rest[i - 1] == l[i]);
                assert forall|j: int| 0 <= j < i - 1 implies (#[trigger] rest[j]).item_id != id by {
                    assert(rest[j] == l[j + 1]);
                }
            }
        } else {
            assert(l[0] == first_location(l, id)->0);
        }
    }
}

/// A location is found by the id of its item, the first one that has it.
pub proof fn law_location_by_id(m: MetaModel, id: u32)
    ensures
        m.location(id) matches Some(x) ==> x.item_id == id && m.locations.contains(x),
        m.location(id) is None <==> forall|i: int|
            0 <= i < m.locations.len() ==> (#[trigger] m.locations[i]).item_id != id,
        forall|i: int|
            0 <= i < m.locations.len() && (#[trigger] m.locations[i]).item_id == id && (forall|j: int|
                0 <= j < i ==> (#[trigger] m.locations[j]).item_id != id) ==> m.location(id) == Some(
                m.locations[i],
            ),
{
    lemma_first_location(m.locations, id);
}

/// Item `a` refers to item `b` by type `t`.
pub open spec fn refers(refs: Seq<ItemReferenceModel>, a: u32, b: u32, t: FourCc) -> bool {
    exists|i: int|
        0 <= i < refs.len() && (#[trigger] refs[i]).from_item_id == a && refs[i].reference_type == t
            && refs[i].to_item_ids.contains(b)
}

proof fn lemma_refers_last(refs: Seq<ItemReferenceModel>, a: u32, b: u32, t: FourCc)
    requires
        refs.len() > 0,
    ensures
        refers(refs, a, b, t) <==> refers(refs.drop_last(), a, b, t) || (refs.last().from_item_id == a
            && refs.last().reference_type == t && refs.last().to_item_ids.contains(b)),
{
    let front = refs.drop_last();
    if refers(refs, a, b, t) {
        let i = choose|i: int|
            0 <= i < refs.len() && (#[trigger] refs[i]).from_item_id == a && refs[i].reference_type
                == t && refs[i].to_item_ids.contains(b);
        if i < front.len() {
            assert(front[i] == refs[i]);
        }
    }
    if refers(front, a, b, t) {
        let i = choose|i: int|
            0 <= i < front.len() && (#[trigger] front[i]).from_item_id == a
                && front[i].reference_type == t && front[i].to_item_ids.contains(b);
        assert(refs[i] == front[i]);
    }
    assert(refs[refs.len() - 1] == refs.last());
}

proof fn lemma_targets(refs: Seq<ItemReferenceModel>, a: u32, b: u32, t: FourCc)
    ensures
        targets(refs, a, t).contains(b) <==> refers(refs, a, b, t),
        sources(refs, b, t).contains(a) <==> refers(refs, a, b, t),
    decreases refs.len(),
{
    if refs.len() > 0 {
        let front = refs.drop_last();
        let r = refs.last();
        lemma_targets(front, a, b, t);
        lemma_refers_last(refs, a, b, t);
        let (x, y) = (targets(front, a, t), r.to_item_ids);
        if r.from_item_id == a && r.reference_type == t {
            assert((x + y).contains(b) <==> x.contains(b) || y.contains(b)) by {
                if x.contains(b) {
                    let k = choose|k: int| 0 <= k < x.len() && x[k] == b;
                    assert((x + y)[k] == b);
                }
                if y.contains(b) {
                    let k = choose|k: int| 0 <= k < y.len() && y[k] == b;
                    assert((x + y)[x.len() + k] == b);
                }
            }
        }
        let z = sources(front, b, t);
        if r.reference_type == t && r.to_item_ids.contains(b) {
            let v = z.push(r.from_item_id);
            assert(v.contains(a) <==> z.contains(a) || r.from_item_id == a) by {
                if z.contains(a) {
                    let k = choose|k: int| 0 <= k < z.len() && z[k] == a;
                    assert(v[k] == a);
                }
                assert(v[z.len() as int] == r.from_item_id);
            }
        }
    }
}

/// References are the same read from either end: `b` is among what `a` refers to, and
/// `a` among what refers to `b`, exactly when a reference of the type leads from `a` to
/// `b`.
pub proof fn law_references_both_ways(m: MetaModel, a: u32, b: u32, t: FourCc)
    ensures
        m.references_from(a, t).contains(b) <==> refers(m.references, a, b, t),
        m.references_to(b, t).contains(a) <==> refers(m.references, a, b, t),
        m.references_from(a, t).contains(b) <==> m.references_to(b, t).contains(a),
{
    lemma_targets(m.references, a, b, t);
}

/// The item has an association that names property `index` (from 1), essential or not.
pub open spec fn associated(rows: Seq<ItemPropertyAssociationsModel>, id: u32, a: PropertyAssociation) -> bool {
    exists|i: int| 0 <= i < rows.len() && (#[trigger] rows[i]).item_id == id && rows[i].entries.contains(a)
}

proof fn lemma_entries(rows: Seq<ItemPropertyAssociationsModel>, id: u32, a: PropertyAssociation)
    ensures
        entries_of(rows, id).contains(a) <==> associated(rows, id, a),
    decreases rows.len(),
{
    if rows.len() > 0 {
        let front = rows.drop_last();
        let r = rows.last();
        lemma_entries(front, id, a);
        assert(rows[rows.len() - 1] == r);
        if associated(rows, id, a) {
            let i = choose|i: int|
                0 <= i < rows.len() && (#[trigger] rows[i]).item_id == id && rows[i].entries.contains(a);
            if i < front.len() {
                assert(front[i] == rows[i]);
            }
        }
        if associated(front, id, a) {
            let i = choose|i: int|
                0 <= i < front.len() && (#[trigger] front[i]).item_id == id
                    && front[i].entries.contains(a);
            assert(rows[i] == front[i]);
        }
        let (x, y) = (entries_of(front, id), r.entries);
        if r.item_id == id {
            if x.contains(a) {
                let k = choose|k: int| 0 <= k < x.len() && x[k] == a;
                assert((x + y)[k] == a);
            }
            if y.contains(a) {
                let k = choose|k: int| 0 <= k < y.len() && y[k] == a;
                assert((x + y)[x.len() + k] == a);
            }
        }
    }
}

proof fn lemma_named(
    entries: Seq<PropertyAssociation>,
    props: Seq<RawPropertyModel>,
    e: (u16, RawPropertyModel, bool),
)
    ensures
        named_properties(entries, props).contains(e) <==> 1 <= e.0 <= props.len() && e.1 == props[e.0
            - 1] && entries.contains((PropertyAssociation { index: e.0, essential: e.2 })),
    decreases entries.len(),
{
    let a = PropertyAssociation { index: e.0, essential: e.2 };
    if entries.len() > 0 {
        let front = entries.drop_last();
        let last = entries.last();
        lemma_named(front, props, e);
        let before = named_properties(front, props);
        assert(entries[entries.len() - 1] == last);
        if entries.contains(a) {
            let k = choose|k: int| 0 <= k < entries.len() && entries[k] == a;
            if k < front.len() {
                assert(front[k] == a);
            }
        }
        if front.contains(a) {
            let k = choose|k: int| 0 <= k < front.len() && front[k] == a;
            assert(entries[k] == a);
        }
        if 1 <= last.index <= props.len() {
            let x = (last.index, props[last.index - 1], last.essential);
            let v = before.push(x);
            assert(v[before.len() as int] == x);
            if before.contains(e) {
                let k = choose|k: int| 0 <= k < before.len() && before[k] == e;
                assert(v[k] == e);
            }
        }
    }
}

/// The properties of an item are those that its associations name, by their place from 1
/// in the list of properties, with the essential mark of the association.
pub proof fn law_properties_of_item(m: MetaModel, id: u32, index: u16, essential: bool)
    ensures
        1 <= index <= m.properties.len() ==> (m.properties_of(id).contains(
            (index, m.properties[index - 1], essential),
        ) <==> associated(m.associations, id, (PropertyAssociation { index, essential }))),
        forall|k: int|
            0 <= k < m.properties_of(id).len() ==> 1 <= (#[trigger] m.properties_of(id)[k]).0
                <= m.properties.len() && m.properties_of(id)[k].1 == m.properties[m.properties_of(
                id,
            )[k].0 - 1],
{
    let a = PropertyAssociation { index, essential };
    lemma_entries(m.associations, id, a);
    let v = m.properties_of(id);
    let es = entries_of(m.associations, id);
    if 1 <= index <= m.properties.len() {
        lemma_named(es, m.properties, (index, m.properties[index - 1], essential));
    }
    assert forall|k: int| 0 <= k < v.len() implies 1 <= (#[trigger] v[k]).0 <= m.properties.len()
        && v[k].1 == m.properties[v[k].0 - 1] by {
        assert(v.contains(v[k]));
        lemma_named(es, m.properties, v[k]);
    }
}

proof fn lemma_groups(groups: Seq<EntityGroupModel>, id: u32, t: FourCc, g: EntityGroupModel)
    ensures
        groups_with(groups, id, t).contains(g) <==> groups.contains(g) && g.grouping_type == t
            && g.entity_ids.contains(id),
    decreases groups.len(),
{
    if groups.len() > 0 {
        let front = groups.drop_last();
        lemma_groups(front, id, t, g);
        let last = groups.last();
        assert(groups[groups.len() - 1] == last);
        if groups.contains(g) {
            let k = choose|k: int| 0 <= k < groups.len() && groups[k] == g;
            if k < front.len() {
                assert(front[k] == g);
            }
        }
        if front.contains(g) {
            let k = choose|k: int| 0 <= k < front.len() && front[k] == g;
            assert(groups[k] == g);
        }
        let before = groups_with(front, id, t);
        if last.grouping_type == t && last.entity_ids.contains(id) {
            let v = before.push(last);
            assert(v[before.len() as int] == last);
            if before.contains(g) {
                let k = choose|k: int| 0 <= k < before.len() && before[k] == g;
                assert(v[k] == g);
            }
        }
    }
}

/// The groups of a type that hold an entity are those groups, of this type, that name it.
pub proof fn law_groups_of_entity(groups: Seq<EntityGroupModel>, id: u32, t: FourCc, g: EntityGroupModel)
    ensures
        groups_with(groups, id, t).contains(g) <==> groups.contains(g) && g.grouping_type == t
            && g.entity_ids.contains(id),
{
    lemma_groups(groups, id, t, g);
}

} // verus!
