//! What is predicted of an image is what decoding it gives.
use crate::compose::grid::grid_picture;
use crate::compose::overlay::overlay_picture;
use crate::compose::{transformed, transformed_from};
use crate::decode::session::{
    output_of, outputs_from, overlay_inputs, reconstructed, SessionModel, Step,
};
use crate::decode::{announced_layout, ToneMapOutput};
use crate::demux::predict::{
    alpha_predicted, predicted, predicted_after, predicted_before, predicted_from, predicted_through,
    some_alpha, some_odd, Forecast,
};
use crate::derived::{size_before, KindModel, NodeModel};
use crate::error::ErrorKind;
use crate::image::Picture;
use crate::props::{PropertyEntryModel, PropertyModel};
use vstd::prelude::*;

verus! {

/// Whether the decoded pictures have the layout and size their items announce, and
/// tone maps show their base image.
pub open spec fn as_announced(n: NodeModel, s: SessionModel) -> bool
    decreases n, 0int,
{
    &&& all_announced(n.inputs, s)
    &&& match n.kind {
        KindModel::Coded(_) => s.pictures.contains_key(n.item.id) ==> {
            let p = s.pictures[n.item.id];
            &&& announced_layout(n.properties) == Some(p.format)
            &&& size_before(n) == Ok::<(u32, u32), ErrorKind>((p.width, p.height))
        },
        KindModel::ToneMap(_) => s.decoder.tone_map == ToneMapOutput::Base && n.depth_in_chain == 0,
        _ => true,
    }
}

/// [`as_announced`] for every node of a list.
pub open spec fn all_announced(v: Seq<NodeModel>, s: SessionModel) -> bool
    decreases v, 1int,
{
    forall|i: int| 0 <= i < v.len() ==> as_announced(#[trigger] v[i], s)
}

/// The layout and size of a picture.
pub open spec fn forecast(p: Picture) -> Forecast {
    (p.format, (p.width, p.height))
}

/// The layouts and sizes of a list of pictures.
pub open spec fn forecasts(v: Seq<Picture>) -> Seq<Forecast> {
    Seq::new(v.len(), |i: int| forecast(v[i]))
}

proof fn lemma_through(f: Picture, p: PropertyModel)
    ensures
        transformed(f, p) matches Ok(g) ==> predicted_through(forecast(f), p) == Ok::<
            Forecast,
            ErrorKind,
        >(forecast(g)),
{
}

proof fn lemma_after(f: Picture, chain: Seq<PropertyEntryModel>, i: int)
    requires
        0 <= i,
    ensures
        transformed_from(f, chain, i, false) matches Ok(g) ==> predicted_after(
            forecast(f),
            chain,
            i,
        ) == Ok::<Forecast, ErrorKind>(forecast(g)),
    decreases chain.len() - i,
{
    if i < chain.len() {
        lemma_through(f, chain[i].property);
        if let Ok(g) = transformed(f, chain[i].property) {
            lemma_after(g, chain, i + 1);
        }
    }
}

proof fn lemma_list(v: Seq<NodeModel>, s: SessionModel, i: int, acc: Seq<Picture>)
    requires
        0 <= i <= v.len(),
        all_announced(v, s),
        acc.len() == i,
    ensures
        outputs_from(v, s, i, acc) matches Ok(Step::Done(pics)) ==> {
            &&& pics.len() == v.len()
            &&& predicted_from(v, i, forecasts(acc)) == Ok::<Seq<Forecast>, ErrorKind>(
                forecasts(pics),
            )
            &&& alpha_predicted(v, i) == (exists|k: int|
                i <= k < pics.len() && (#[trigger] pics[k]).format.has_alpha)
            &&& forall|k: int| 0 <= k < i ==> #[trigger] pics[k] == acc[k]
            &&& forall|k: int|
                i <= k < v.len() ==> predicted(v[k]) == Ok::<Forecast, ErrorKind>(
                    forecast(#[trigger] pics[k]),
                )
        },
    decreases v, 0int, v.len() - i,
{
    if i < v.len() {
        assert(as_announced(v[i], s));
        law_forecast(v[i], s);
        match output_of(v[i], s) {
            Ok(Step::Done(p)) => {
                lemma_list(v, s, i + 1, acc.push(p));
                assert(forecasts(acc.push(p)) =~= forecasts(acc).push(forecast(p)));
                if let Ok(Step::Done(pics)) = outputs_from(v, s, i + 1, acc.push(p)) {
                    assert(pics[i] == acc.push(p)[i]);
                    assert forall|k: int| 0 <= k < i implies #[trigger] pics[k] == acc[k] by {
                        assert(pics[k] == acc.push(p)[k]);
                    }
                    if alpha_predicted(v, i) {
                        if !p.format.has_alpha {
                            let k = choose|k: int|
                                i + 1 <= k < pics.len() && (#[trigger] pics[k]).format.has_alpha;
                            assert(pics[k].format.has_alpha);
                        } else {
                            assert(pics[i].format.has_alpha);
                        }
                    }
                }
            },
            _ => {},
        }
    }
}

proof fn lemma_grid(n: NodeModel, s: SessionModel, tiles: Seq<Picture>, p: Picture)
    requires
        n.kind matches KindModel::Grid(g) && grid_picture(g, tiles) == Ok::<Picture, ErrorKind>(p),
        tiles.len() > 0,
        tiles.len() == n.inputs.len(),
        forall|k: int|
            0 <= k < tiles.len() ==> predicted(n.inputs[k]) == Ok::<Forecast, ErrorKind>(
                forecast(#[trigger] tiles[k]),
            ),
        alpha_predicted(n.inputs, 0) == (exists|k: int|
            0 <= k < tiles.len() && (#[trigger] tiles[k]).format.has_alpha),
    ensures
        predicted_before(n) == Ok::<Forecast, ErrorKind>(forecast(p)),
{
    assert(predicted(n.inputs[0]) == Ok::<Forecast, ErrorKind>(forecast(tiles[0])));
}

proof fn lemma_same_layouts(pics: Seq<Picture>, v: Seq<NodeModel>, i: int)
    requires
        0 <= i <= pics.len(),
        pics.len() == v.len(),
        crate::compose::overlay::input_refusal(overlay_inputs(v, pics), i) is None,
    ensures
        forall|k: int|
            i <= k < pics.len() ==> (#[trigger] pics[k]).format.chroma == pics[0].format.chroma,
    decreases pics.len() - i,
{
    let ins = overlay_inputs(v, pics);
    if i < pics.len() {
        assert(ins[i].frame == pics[i]);
        assert(ins[0].frame == pics[0]);
        lemma_same_layouts(pics, v, i + 1);
    }
}

proof fn lemma_overlay(n: NodeModel, s: SessionModel, pics: Seq<Picture>, p: Picture)
    requires
        n.kind matches KindModel::Overlay(o) && overlay_picture(
            o,
            overlay_inputs(n.inputs, pics),
            crate::props::first_nclx(n.properties.colrs()),
        ) == Ok::<Picture, ErrorKind>(p),
        pics.len() == n.inputs.len(),
        predicted_from(n.inputs, 0, Seq::empty()) == Ok::<Seq<Forecast>, ErrorKind>(forecasts(pics)),
        n.inputs.len() > 0 ==> predicted(n.inputs[0]) == Ok::<Forecast, ErrorKind>(
            forecast(pics[0]),
        ),
        as_announced(n, s),
    ensures
        predicted_before(n) == Ok::<Forecast, ErrorKind>(forecast(p)),
{
    let o = n.kind->Overlay_0;
    let ins = overlay_inputs(n.inputs, pics);
    let fs = forecasts(pics);
    lemma_same_layouts(pics, n.inputs, 0);
    assert(forall|k: int| 0 <= k < pics.len() ==> (#[trigger] ins[k]).frame == pics[k]);
    assert(forall|k: int| 0 <= k < pics.len() ==> #[trigger] fs[k] == forecast(pics[k]));
    let c = pics[0].format.chroma;
    assert(some_alpha(fs) == crate::compose::overlay::any_alpha(ins)) by {
        if some_alpha(fs) {
            let k = choose|k: int| 0 <= k < fs.len() && (#[trigger] fs[k]).0.has_alpha;
            assert(ins[k].frame.format.has_alpha);
        }
        if crate::compose::overlay::any_alpha(ins) {
            let k = choose|k: int|
                0 <= k < ins.len() && (#[trigger] ins[k]).frame.format.has_alpha;
            assert(fs[k].0.has_alpha);
        }
    }
    assert(some_odd(fs) == crate::compose::overlay::odd_input(c, ins)) by {
        if some_odd(fs) {
            let k = choose|k: int|
                0 <= k < fs.len() && crate::compose::odd_chroma(
                    (#[trigger] fs[k]).0.chroma,
                    fs[k].1.0 % 2 == 1,
                    fs[k].1.1 % 2 == 1,
                );
            assert(pics[k].format.chroma == c);
            assert(ins[k].frame == pics[k]);
        }
        if crate::compose::overlay::odd_input(c, ins) {
            let k = choose|k: int|
                0 <= k < ins.len() && crate::compose::odd_chroma(
                    c,
                    (#[trigger] ins[k]).frame.width % 2 == 1,
                    ins[k].frame.height % 2 == 1,
                );
            assert(pics[k].format.chroma == c);
            assert(fs[k] == forecast(pics[k]));
        }
    }
}

/// The layout and size predicted for an image are those of the decoded image,
/// when the coded items decode to the layout and size they announce. Tone maps
/// that show more than their base image are left out (their depth is another
/// one).
#[verifier::rlimit(50)]
pub proof fn law_forecast(n: NodeModel, s: SessionModel)
    requires
        as_announced(n, s),
    ensures
        output_of(n, s) matches Ok(Step::Done(p)) ==> predicted(n) == Ok::<Forecast, ErrorKind>(
            forecast(p),
        ),
    decreases n, 1int, 0int,
{
    match reconstructed(n, s) {
        Ok(Step::Done(rec)) => {
            match n.kind {
                KindModel::Coded(_) => {},
                KindModel::Grid(_) => {
                    lemma_list(n.inputs, s, 0, Seq::empty());
                    assert(forecasts(Seq::empty()) =~= Seq::empty());
                    if let Ok(Step::Done(tiles)) = outputs_from(n.inputs, s, 0, Seq::empty()) {
                        lemma_grid(n, s, tiles, rec);
                    }
                },
                KindModel::Overlay(_) => {
                    lemma_list(n.inputs, s, 0, Seq::empty());
                    assert(forecasts(Seq::empty()) =~= Seq::empty());
                    if let Ok(Step::Done(pics)) = outputs_from(n.inputs, s, 0, Seq::empty()) {
                        lemma_overlay(n, s, pics, rec);
                    }
                },
                KindModel::Identity => {
                    assert(as_announced(n.inputs[0], s));
                    law_forecast(n.inputs[0], s);
                },
                KindModel::ToneMap(_) => {
                    assert(as_announced(n.inputs[0], s));
                    law_forecast(n.inputs[0], s);
                },
            }
            assert(predicted_before(n) == Ok::<Forecast, ErrorKind>(forecast(rec)));
            lemma_after(rec, n.properties.transformative(), 0);
        },
        _ => {},
    }
}

} // verus!
