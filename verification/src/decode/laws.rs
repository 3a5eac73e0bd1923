//! Laws of the output images of items.
use crate::bytes::rows::lemma_word;
use crate::bytes::enc32;
use crate::compose::grid::grid_picture;
use crate::compose::transformed_from;
use crate::decode::describe::{gain_map_of, tone_map_over, SourceModel};
use crate::decode::exif_of;
use crate::decode::session::{output_of, outputs_from, reconstructed, SessionModel, Step};
use crate::derived::NodeModel;
use crate::error::ErrorKind;
use crate::file::FileModel;
use crate::image::seen::{inside, seen, seen_opacity};
use crate::image::Picture;
use crate::meta::MetaModel;
use crate::props::unknown_essential;
use vstd::prelude::*;

verus! {

/// A node that is shown as it is reconstructed: without transformations, without alpha
/// and without essential properties that are not recognised.
pub open spec fn plain(n: NodeModel) -> bool {
    &&& n.properties.transformative().len() == 0
    &&& n.alpha is None
    &&& unknown_essential(n.properties.entries).len() == 0
}

/// A coded item that is plain shows its decoded picture.
pub proof fn law_coded_output(n: NodeModel, s: SessionModel)
    requires
        plain(n),
        n.kind is Coded,
        s.pictures.contains_key(n.item.id),
    ensures
        output_of(n, s) == Ok::<Step<Picture>, ErrorKind>(Step::Done(s.pictures[n.item.id])),
{
    reveal_with_fuel(output_of, 2);
    reveal_with_fuel(reconstructed, 2);
    reveal_with_fuel(transformed_from, 2);
}

/// An identity that is plain shows what its input shows.
pub proof fn law_identity_output(n: NodeModel, s: SessionModel)
    requires
        plain(n),
        n.kind is Identity,
        n.inputs.len() > 0,
    ensures
        output_of(n, s) == output_of(n.inputs[0], s),
{
    reveal_with_fuel(output_of, 2);
    reveal_with_fuel(reconstructed, 2);
    reveal_with_fuel(transformed_from, 2);
}

/// An image with an alpha auxiliary keeps its colours, and is as opaque at each pixel as
/// the luma of the auxiliary says, where both have one size and depth.
pub proof fn law_alpha_of_output(n: NodeModel, s: SessionModel, out: Picture, x: int, y: int)
    requires
        n.alpha is Some,
        output_of(n, s) == Ok::<Step<Picture>, ErrorKind>(Step::Done(out)),
        inside(out, x, y),
    ensures
        ({
            let bare = NodeModel { alpha: None, ..n };
            &&& output_of(*n.alpha->0, s) matches Ok(Step::Done(a)) && output_of(bare, s) matches Ok(
                Step::Done(q),
            ) && {
                &&& out.width == q.width && out.height == q.height
                &&& out.format.chroma == q.format.chroma
                &&& out.format.bit_depth == q.format.bit_depth
                &&& forall|p: int| 0 <= p < 3 ==> #[trigger] seen(out, p, x, y) == seen(q, p, x, y)
                &&& a.width == q.width && a.height == q.height && a.format.bit_depth
                    == q.format.bit_depth ==> seen_opacity(out, x, y) == seen(a, 0, x, y)
            }
        }),
{
    let bare = NodeModel { alpha: None, ..n };
    reveal_with_fuel(output_of, 2);
    lemma_bare(n, s);
    let a = output_of(*n.alpha->0, s)->Ok_0->Done_0;
    let q = output_of(bare, s)->Ok_0->Done_0;
    crate::compose::pixel_laws::law_attached_alpha(q, a, x, y);
    assert(out == q.with_alpha_of(a));
    assert forall|p: int| 0 <= p < 3 implies #[trigger] seen(out, p, x, y) == seen(q, p, x, y) by {}
}

/// What is reconstructed does not depend on the alpha auxiliary.
proof fn lemma_bare(n: NodeModel, s: SessionModel)
    ensures
        reconstructed(n, s) matches Ok(Step::Done(p)) ==> reconstructed(
            (NodeModel { alpha: None, ..n }),
            s,
        ) == reconstructed(n, s),
{
    reveal_with_fuel(output_of, 2);
    reveal_with_fuel(reconstructed, 2);
}

proof fn lemma_outputs(v: Seq<NodeModel>, s: SessionModel, i: int, acc: Seq<Picture>)
    requires
        0 <= i <= v.len(),
        acc.len() == i,
        forall|k: int|
            0 <= k < i ==> output_of(v[k], s) == Ok::<Step<Picture>, ErrorKind>(
                Step::Done(#[trigger] acc[k]),
            ),
    ensures
        outputs_from(v, s, i, acc) matches Ok(Step::Done(t)) ==> t.len() == v.len() && forall|k: int|
            0 <= k < v.len() ==> output_of(v[k], s) == Ok::<Step<Picture>, ErrorKind>(
                Step::Done(#[trigger] t[k]),
            ),
    decreases v.len() - i,
{
    if i < v.len() {
        if let Ok(Step::Done(p)) = output_of(v[i], s) {
            let next = acc.push(p);
            assert forall|k: int| 0 <= k < i + 1 implies output_of(v[k], s) == Ok::<
                Step<Picture>,
                ErrorKind,
            >(Step::Done(#[trigger] next[k])) by {
                if k < i {
                    assert(next[k] == acc[k]);
                }
            }
            lemma_outputs(v, s, i + 1, next);
        }
    }
}

/// A grid item that is plain shows the output images of its inputs, in order, as its
/// tiles.
pub proof fn law_grid_output(n: NodeModel, s: SessionModel, out: Picture) -> (tiles: Seq<Picture>)
    requires
        plain(n),
        n.kind is Grid,
        output_of(n, s) == Ok::<Step<Picture>, ErrorKind>(Step::Done(out)),
    ensures
        tiles.len() == n.inputs.len(),
        forall|i: int|
            0 <= i < tiles.len() ==> output_of(n.inputs[i], s) == Ok::<Step<Picture>, ErrorKind>(
                Step::Done(#[trigger] tiles[i]),
            ),
        grid_picture(n.kind->Grid_0, tiles) == Ok::<Picture, ErrorKind>(out),
{
    reveal_with_fuel(output_of, 2);
    reveal_with_fuel(reconstructed, 2);
    reveal_with_fuel(transformed_from, 2);
    lemma_outputs(n.inputs, s, 0, Seq::empty());
    outputs_from(n.inputs, s, 0, Seq::empty())->Ok_0->Done_0
}

/// An Exif item gives back the TIFF data that were written, behind the length of what
/// precedes them.
pub proof fn law_exif_data(before: Seq<u8>, tiff: Seq<u8>)
    requires
        before.len() <= u32::MAX,
    ensures
        exif_of(enc32(before.len() as u32) + before + tiff) == Ok::<Seq<u8>, ErrorKind>(tiff),
{
    let item = enc32(before.len() as u32) + before + tiff;
    lemma_word(item, 0, before.len() as u32);
    assert(item.skip(4 + before.len() as int) =~= tiff);
}

proof fn lemma_tone_map_over(m: MetaModel, id: u32, i: int)
    requires
        0 <= i,
    ensures
        tone_map_over(m, id, i) matches Some(t) ==> exists|k: int|
            i <= k < m.items.len() && (#[trigger] m.items[k]).id == t && m.items[k].item_type@
                == seq![0x74u8, 0x6d, 0x61, 0x70] && m.references_from(
                t,
                [0x64, 0x69, 0x6d, 0x67],
            ).len() > 0 && m.references_from(t, [0x64, 0x69, 0x6d, 0x67])[0] == id,
        tone_map_over(m, id, i) is None ==> forall|k: int|
            i <= k < m.items.len() && (#[trigger] m.items[k]).item_type@
                == seq![0x74u8, 0x6d, 0x61, 0x70] ==> {
                let v = m.references_from(m.items[k].id, [0x64, 0x69, 0x6d, 0x67]);
                v.len() == 0 || v[0] != id
            },
    decreases m.items.len() - i,
{
    assert(crate::meta::reference::DIMG =~= [0x64u8, 0x69, 0x6d, 0x67]);
    assert(crate::meta::ITEM_TYPE_TMAP@ =~= seq![0x74u8, 0x6d, 0x61, 0x70]);
    if i < m.items.len() {
        lemma_tone_map_over(m, id, i + 1);
        let t = m.items[i].item_type;
        if t@ == seq![0x74u8, 0x6d, 0x61, 0x70] {
            assert(t =~= crate::meta::ITEM_TYPE_TMAP);
        }
        assert(m.items[i].id == m.items[i].id);
    }
}

/// The gain map of an image is the second input of a tone map (`tmap`) whose first input is
/// the image, or of the image itself when it is a tone map; the graph of the gain map is
/// rooted at that input.
pub proof fn law_gain_map_of_image(f: FileModel, n: NodeModel, g: SourceModel)
    requires
        gain_map_of(f, n) == Ok::<Option<SourceModel>, ErrorKind>(Some(g)),
    ensures
        f.meta matches Some(m) && {
            let v = m.references_from(g.tmap_item_id, [0x64, 0x69, 0x6d, 0x67]);
            &&& v.len() == 2
            &&& g.node.item.id == v[1]
            &&& n.kind is ToneMap ==> g.tmap_item_id == n.item.id
            &&& !(n.kind is ToneMap) ==> v[0] == n.item.id
        },
{
    let m = f.meta->0;
    assert(crate::meta::reference::DIMG =~= [0x64u8, 0x69, 0x6d, 0x67]);
    lemma_tone_map_over(m, n.item.id, 0);
    let v = m.references_from(g.tmap_item_id, [0x64, 0x69, 0x6d, 0x67]);
    crate::derived::laws::law_graph_follows_references(f, v[1], g.node);
}

} // verus!
