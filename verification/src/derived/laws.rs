//! Laws of derivations: the graph follows the references, and sizes follow pictures.
use crate::compose::transformed;
use crate::derived::{
    aux_from, aux_kind, graph_of, node_at, nodes_from, AuxModel, NodeModel, MAX_DERIVATION_DEPTH,
};
use crate::error::ErrorKind;
use crate::file::FileModel;
use crate::image::Picture;
use crate::meta::laws::law_item_by_id;
use crate::meta::{reference, MetaModel};
use crate::props::{item_properties, transformed_size, AuxKind, PropertyModel};
use vstd::prelude::*;

verus! {

/// Nodes are those of the ids, one for one.
pub open spec fn follow(v: Seq<NodeModel>, ids: Seq<u32>) -> bool {
    &&& v.len() == ids.len()
    &&& forall|i: int| 0 <= i < v.len() ==> (#[trigger] v[i]).item.id == ids[i]
}

/// A node is that of the item asked for.
proof fn lemma_node(f: FileModel, m: MetaModel, id: u32, depth: int, stack: Seq<u32>, budget: int)
    ensures
        node_at(f, m, id, depth, stack, budget) matches Ok((n, _)) ==> {
            &&& n.item.id == id
            &&& n.depth_in_chain == depth as usize
            &&& item_properties(m, id) == Ok::<crate::props::ItemPropertiesModel, ErrorKind>(
                n.properties,
            )
            &&& m.item(id) == Some(n.item)
            &&& n.item.image()
            &&& !stack.contains(id)
        },
{
    law_item_by_id(m, id);
}

proof fn lemma_nodes(
    f: FileModel,
    m: MetaModel,
    ids: Seq<u32>,
    i: int,
    depth: int,
    stack: Seq<u32>,
    budget: int,
    acc: Seq<NodeModel>,
)
    requires
        0 <= i <= ids.len(),
        follow(acc, ids.take(i)),
        depth <= MAX_DERIVATION_DEPTH,
    ensures
        nodes_from(f, m, ids, i, depth, stack, budget, acc) matches Ok((v, _)) ==> follow(v, ids),
    decreases ids.len() - i,
{
    if i < ids.len() {
        lemma_node(f, m, ids[i], depth + 1, stack, budget);
        if let Ok((n, left)) = node_at(f, m, ids[i], depth + 1, stack, budget) {
            let next = acc.push(n);
            assert forall|k: int| 0 <= k < next.len() implies (#[trigger] next[k]).item.id == ids.take(
                i + 1,
            )[k] by {
                if k < acc.len() {
                    assert(acc[k].item.id == ids.take(i)[k]);
                }
            }
            lemma_nodes(f, m, ids, i + 1, depth, stack, left, next);
        }
    } else {
        assert(ids.take(i) =~= ids);
    }
}

/// Auxiliaries are among the ids, of their kinds.
pub open spec fn auxiliaries_follow(a: AuxModel, m: MetaModel, master: u32, ids: Seq<u32>) -> bool {
    &&& a.alpha matches Some(n) ==> ids.contains(n.item.id) && aux_kind(n.properties) == Some(
        AuxKind::Alpha,
    ) && a.premultiplied == m.references_from(master, reference::PREM).contains(n.item.id)
    &&& a.alpha is None ==> !a.premultiplied
    &&& a.depth matches Some(n) ==> ids.contains(n.item.id) && aux_kind(n.properties) == Some(
        AuxKind::Depth,
    )
    &&& forall|i: int|
        0 <= i < a.other.len() ==> {
            let k = aux_kind((#[trigger] a.other[i]).properties);
            &&& ids.contains(a.other[i].item.id)
            &&& k == Some(AuxKind::Alpha) ==> a.alpha is Some
            &&& k == Some(AuxKind::Depth) ==> a.depth is Some
        }
}

#[verifier::rlimit(40)]
proof fn lemma_auxiliaries(
    f: FileModel,
    m: MetaModel,
    master: u32,
    ids: Seq<u32>,
    i: int,
    depth: int,
    stack: Seq<u32>,
    budget: int,
    acc: AuxModel,
)
    requires
        0 <= i <= ids.len(),
        auxiliaries_follow(acc, m, master, ids),
        depth <= MAX_DERIVATION_DEPTH,
    ensures
        aux_from(f, m, master, ids, i, depth, stack, budget, acc) matches Ok((a, _))
            ==> auxiliaries_follow(a, m, master, ids),
    decreases ids.len() - i,
{
    if i < ids.len() {
        lemma_node(f, m, ids[i], depth + 1, stack, budget);
        if let Ok((n, left)) = node_at(f, m, ids[i], depth + 1, stack, budget) {
            let next = acc.with(m, master, ids[i], n);
            assert(ids.contains(ids[i]));
            assert forall|k: int| 0 <= k < next.other.len() implies {
                let q = aux_kind((#[trigger] next.other[k]).properties);
                &&& ids.contains(next.other[k].item.id)
                &&& q == Some(AuxKind::Alpha) ==> next.alpha is Some
                &&& q == Some(AuxKind::Depth) ==> next.depth is Some
            } by {
                if k < acc.other.len() {
                    assert(next.other[k] == acc.other[k]);
                }
            }
            lemma_auxiliaries(f, m, master, ids, i + 1, depth, stack, left, next);
        }
    }
}

/// The graph of an item is rooted at the item. Its inputs are the items that it is derived
/// from (`dimg`), in order; its thumbnails those that refer to it so (`thmb`); its alpha and
/// its depth map are auxiliaries of it (`auxl`) of these kinds; and its alpha is
/// pre-multiplied exactly when it says so (`prem`).
pub proof fn law_graph_follows_references(f: FileModel, id: u32, n: NodeModel)
    requires
        graph_of(f, id) == Ok::<NodeModel, ErrorKind>(n),
    ensures
        f.meta matches Some(m) && {
            &&& n.item.id == id
            &&& m.item(id) == Some(n.item)
            &&& n.depth_in_chain == 0
            &&& follow(n.inputs, m.references_from(id, [0x64, 0x69, 0x6d, 0x67]))
            &&& follow(n.thumbnails, m.references_to(id, [0x74, 0x68, 0x6d, 0x62]))
            &&& n.alpha matches Some(a) ==> aux_kind(a.properties) == Some(AuxKind::Alpha)
                && m.references_to(id, [0x61, 0x75, 0x78, 0x6c]).contains(a.item.id)
                && n.premultiplied_alpha == m.references_from(id, [0x70, 0x72, 0x65, 0x6d]).contains(
                a.item.id,
            )
            &&& n.alpha is None ==> !n.premultiplied_alpha
            &&& n.depth matches Some(a) ==> aux_kind(a.properties) == Some(AuxKind::Depth)
                && m.references_to(id, [0x61, 0x75, 0x78, 0x6c]).contains(a.item.id)
        },
{
    assert(reference::DIMG =~= [0x64u8, 0x69, 0x6d, 0x67]);
    assert(reference::THMB =~= [0x74u8, 0x68, 0x6d, 0x62]);
    assert(reference::AUXL =~= [0x61u8, 0x75, 0x78, 0x6c]);
    assert(reference::PREM =~= [0x70u8, 0x72, 0x65, 0x6d]);
    let m = f.meta->0;
    let budget = crate::derived::MAX_GRAPH_ITEMS as int;
    lemma_node(f, m, id, 0, Seq::empty(), budget);
    let stack = Seq::<u32>::empty().push(id);
    let ids = m.references_from(id, reference::DIMG);
    assert(follow(Seq::<NodeModel>::empty(), ids.take(0)));
    lemma_nodes(f, m, ids, 0, 0, stack, budget - 1, Seq::empty());
    if let Ok((inputs, b1)) = nodes_from(f, m, ids, 0, 0, stack, budget - 1, Seq::empty()) {
        let aux = m.references_to(id, reference::AUXL);
        lemma_auxiliaries(f, m, id, aux, 0, 0, stack, b1, AuxModel::none());
        if let Ok((a, b2)) = aux_from(f, m, id, aux, 0, 0, stack, b1, AuxModel::none()) {
            let thumbs = m.references_to(id, reference::THMB);
            assert(follow(Seq::<NodeModel>::empty(), thumbs.take(0)));
            lemma_nodes(f, m, thumbs, 0, 0, stack, b2, Seq::empty());
        }
    }
}

/// The size that a transformation announces is that of the picture that it makes.
pub proof fn law_size_of_transformed(f: Picture, p: PropertyModel, g: Picture)
    requires
        transformed(f, p) == Ok::<Picture, ErrorKind>(g),
    ensures
        transformed_size(p, (f.width, f.height)) == Ok::<(u32, u32), ErrorKind>((g.width, g.height)),
{
}

} // verus!
