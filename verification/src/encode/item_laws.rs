//! Laws of what the items of a file are described with.
use crate::encode::items::{
    alpha_item_of, gain_map_item_of, master_item_of, thumbnail_item_of, tile_item_of, ItemModel,
};
use crate::encode::{all_essential, CodedPictureModel, EncodeOptions, GainMapSpec, StillCodec};
use crate::image::Chroma;
use crate::props::PropertyModel;
use vstd::prelude::*;

verus! {

/// Whether an item carries a coded picture: its type and its data, and in front of all
/// else its configuration, which a reader must know, its coded size, and the depth of each
/// of `n` channels.
pub open spec fn carries(item: ItemModel, pic: CodedPictureModel, n: nat) -> bool {
    &&& item.item_type == pic.item_type
    &&& item.data == pic.data
    &&& item.props.len() >= 3
    &&& item.props[0] == (pic.config, true)
    &&& item.props[1].0 matches PropertyModel::Ispe(i) && i.width == pic.size.0 && i.height
        == pic.size.1
    &&& item.props[2].0 matches PropertyModel::Pixi(p) && p.bits_per_channel.len() == n && (
    forall|k: int| 0 <= k < n ==> #[trigger] p.bits_per_channel[k] == pic.layout.bit_depth)
}

/// Whether the last properties of an item are the asked-for transformations, in order and
/// all of them essential.
pub open spec fn ends_transformed(item: ItemModel, opts: EncodeOptions) -> bool {
    let (n, t) = (item.props.len() as int, opts.transforms@.len() as int);
    &&& t <= n
    &&& forall|k: int|
        0 <= k < t ==> #[trigger] item.props[n - t + k] == (opts.transforms@[k]@, true)
}

/// How many channels a picture of colour has.
pub open spec fn channel_count(c: Chroma) -> nat {
    if c == Chroma::Mono {
        1
    } else {
        3
    }
}

proof fn lemma_tail(front: Seq<(PropertyModel, bool)>, item: ItemModel, opts: EncodeOptions)
    requires
        item.props == front + all_essential(opts.transforms@),
    ensures
        ends_transformed(item, opts),
{
    let t = opts.transforms@.len() as int;
    let n = item.props.len() as int;
    assert forall|k: int| 0 <= k < t implies #[trigger] item.props[n - t + k] == (
        opts.transforms@[k]@,
        true,
    ) by {
        assert(n - t == front.len());
        assert(item.props[n - t + k] == all_essential(opts.transforms@)[k]);
    }
}

/// The master and the thumbnail carry their own coded pictures and are transformed alike; a
/// tile carries its picture and is not transformed.
pub proof fn law_displayed_items(pic: CodedPictureModel, size: (u32, u32), opts: EncodeOptions)
    ensures
        carries(master_item_of(pic, size, opts), pic, channel_count(pic.layout.chroma)),
        ends_transformed(master_item_of(pic, size, opts), opts),
        carries(thumbnail_item_of(pic, size, opts), pic, channel_count(pic.layout.chroma)),
        ends_transformed(thumbnail_item_of(pic, size, opts), opts),
        carries(tile_item_of(pic, opts), pic, channel_count(pic.layout.chroma)),
        tile_item_of(pic, opts).props.len() == 4,
        tile_item_of(pic, opts).props[3].0 is Colr,
{
    let m = master_item_of(pic, size, opts);
    let n = thumbnail_item_of(pic, size, opts);
    let t = opts.transforms@.len() as int;
    assert(m.props =~= m.props.take(m.props.len() - t) + all_essential(opts.transforms@));
    lemma_tail(m.props.take(m.props.len() - t), m, opts);
    assert(n.props =~= n.props.take(n.props.len() - t) + all_essential(opts.transforms@));
    lemma_tail(n.props.take(n.props.len() - t), n, opts);
}

/// The alpha auxiliary carries one channel and no colour. It is marked as alpha by the URN
/// of its codec, which a reader must know, and transformed as the master is.
pub proof fn law_alpha_item(pic: CodedPictureModel, size: (u32, u32), opts: EncodeOptions, k: int)
    ensures
        ({
            let item = alpha_item_of(pic, size, opts);
            &&& carries(item, pic, 1)
            &&& ends_transformed(item, opts)
            &&& item.props[3].1
            &&& item.props[3].0 matches PropertyModel::AuxC(a) && a.aux_subtype.len() == 0
                && a.aux_type == (if opts.codec == StillCodec::Hevc {
                "urn:mpeg:hevc:2015:auxid:1"@
            } else {
                "urn:mpeg:mpegB:cicp:systems:auxiliary:alpha"@
            })
            &&& 1 <= k < item.props.len() - opts.transforms@.len() ==> !(item.props[k].0 is Colr)
        }),
{
    let m = alpha_item_of(pic, size, opts);
    let t = opts.transforms@.len() as int;
    assert(m.props =~= m.props.take(m.props.len() - t) + all_essential(opts.transforms@));
    lemma_tail(m.props.take(m.props.len() - t), m, opts);
}

/// The gain map carries one channel where it was given as a monochrome picture, and those
/// of its coded picture otherwise. It is described with a colour and not transformed.
pub proof fn law_gain_map_item(pic: CodedPictureModel, size: (u32, u32), gm: GainMapSpec)
    ensures
        ({
            let item = gain_map_item_of(pic, size, gm);
            &&& carries(
                item,
                pic,
                if gm.frame.format.chroma == Chroma::Mono {
                    1
                } else {
                    channel_count(pic.layout.chroma)
                },
            )
            &&& item.props[3].0 is Colr
            &&& pic.size == size ==> item.props.len() == 4
            &&& pic.size != size ==> item.props.len() == 5 && item.props[4].0 is Clap
                && item.props[4].1
        }),
{
}

} // verus!
