//! The layout and size of an image item, known without decoding it.
use crate::compose::overlay::{canvas_opacity, odd_column, odd_row};
use crate::compose::{needs_444, odd_chroma};
use crate::decode::{announced_layout, lacks, layout_of};
use crate::derived::{size_before, ImageKind, ImageNode, KindModel, NodeModel};
use crate::error::{plain_outcome, ErrorKind, HeifError, Outcome, Result};
use crate::image::core_bridge::{full_range_of, full_range_variant, PixelFormat};
use crate::image::{max_of_depth, Chroma, HeifPixelFormat};
use crate::props::{
    first_nclx, Colr, ColrModel, CropRect, Property, PropertyEntry, PropertyEntryModel, PropertyModel,
};
use vstd::prelude::*;

verus! {

/// A predicted layout and size.
pub type Forecast = (HeifPixelFormat, (u32, u32));

/// The chroma after an operation that needs 4:4:4 or not.
pub open spec fn chroma_if(c: Chroma, promote: bool) -> Chroma {
    if promote {
        Chroma::Yuv444
    } else {
        c
    }
}

/// Whether some input is predicted to have an alpha plane.
pub open spec fn some_alpha(v: Seq<Forecast>) -> bool {
    exists|i: int| 0 <= i < v.len() && (#[trigger] v[i]).0.has_alpha
}

/// Whether some input has an odd size its chroma cannot follow.
pub open spec fn some_odd(v: Seq<Forecast>) -> bool {
    exists|i: int|
        0 <= i < v.len() && odd_chroma(
            (#[trigger] v[i]).0.chroma,
            v[i].1.0 % 2 == 1,
            v[i].1.1 % 2 == 1,
        )
}

/// The predictions of the nodes from `i` on, behind those in `acc`.
pub open spec fn predicted_from(v: Seq<NodeModel>, i: int, acc: Seq<Forecast>) -> Outcome<
    Seq<Forecast>,
>
    decreases v, v.len() - i,
{
    if 0 <= i < v.len() {
        match predicted(v[i]) {
            Err(e) => Err(e),
            Ok(p) => predicted_from(v, i + 1, acc.push(p)),
        }
    } else {
        Ok(acc)
    }
}

/// Whether some node from `i` on can be predicted and has an alpha plane.
pub open spec fn alpha_predicted(v: Seq<NodeModel>, i: int) -> bool
    decreases v, v.len() - i,
{
    if 0 <= i < v.len() {
        (match predicted(v[i]) {
            Ok(p) => p.0.has_alpha,
            Err(_) => false,
        }) || alpha_predicted(v, i + 1)
    } else {
        false
    }
}

/// The prediction for a reconstructed image, before its transformations.
pub open spec fn predicted_before(n: NodeModel) -> Outcome<Forecast>
    decreases n, 0int,
{
    match n.kind {
        KindModel::Coded(_) => match announced_layout(n.properties) {
            None => Err(ErrorKind::Invalid),
            Some(f) => match size_before(n) {
                Err(e) => Err(e),
                Ok(s) => Ok((f, s)),
            },
        },
        KindModel::Grid(g) => if n.inputs.len() == 0 {
            Err(ErrorKind::Invalid)
        } else {
            match predicted(n.inputs[0]) {
                Err(e) => Err(e),
                Ok((f, s)) => Ok(
                    (
                        HeifPixelFormat {
                            chroma: chroma_if(
                                f.chroma,
                                odd_chroma(f.chroma, s.0 % 2 == 1, s.1 % 2 == 1) || odd_chroma(
                                    f.chroma,
                                    g.output_width % 2 == 1,
                                    g.output_height % 2 == 1,
                                ),
                            ),
                            bit_depth: f.bit_depth,
                            has_alpha: alpha_predicted(n.inputs, 0),
                        },
                        (g.output_width, g.output_height),
                    ),
                ),
            }
        },
        KindModel::Overlay(o) => match predicted_from(n.inputs, 0, Seq::empty()) {
            Err(e) => Err(e),
            Ok(v) => if v.len() == 0 {
                Err(ErrorKind::Invalid)
            } else {
                Ok(
                    (
                        HeifPixelFormat {
                            chroma: chroma_if(
                                v[0].0.chroma,
                                some_alpha(v) || odd_chroma(
                                    v[0].0.chroma,
                                    odd_column(o.offsets) || o.output_width % 2 == 1,
                                    odd_row(o.offsets) || o.output_height % 2 == 1,
                                ) || some_odd(v),
                            ),
                            bit_depth: v[0].0.bit_depth,
                            has_alpha: canvas_opacity(
                                o.canvas_fill[3],
                                max_of_depth(v[0].0.bit_depth),
                            ) < max_of_depth(v[0].0.bit_depth),
                        },
                        (o.output_width, o.output_height),
                    ),
                )
            },
        },
        KindModel::Identity => predicted_first(n),
        KindModel::ToneMap(_) => predicted_first(n),
    }
}

/// The prediction for the first input.
pub open spec fn predicted_first(n: NodeModel) -> Outcome<Forecast>
    decreases n.inputs, 2int,
{
    if n.inputs.len() == 0 {
        Err(ErrorKind::Invalid)
    } else {
        predicted(n.inputs[0])
    }
}

/// A prediction after one transformative property.
pub open spec fn predicted_through(f: Forecast, p: PropertyModel) -> Outcome<Forecast> {
    let (fmt, (w, h)) = f;
    match p {
        PropertyModel::Clap(c) => match c.rect(w, h) {
            Err(e) => Err(e),
            Ok(r) => Ok(
                (
                    HeifPixelFormat {
                        chroma: chroma_if(
                            fmt.chroma,
                            odd_chroma(
                                fmt.chroma,
                                r.x % 2 == 1 || r.width % 2 == 1,
                                r.y % 2 == 1 || r.height % 2 == 1,
                            ),
                        ),
                        ..fmt
                    },
                    (r.width, r.height),
                ),
            ),
        },
        PropertyModel::Irot(r) => {
            let a = r.angle % 4;
            if a == 0 {
                Ok(f)
            } else {
                Ok(
                    (
                        HeifPixelFormat {
                            chroma: chroma_if(
                                fmt.chroma,
                                odd_chroma(fmt.chroma, w % 2 == 1, h % 2 == 1) || (a % 2 == 1
                                    && fmt.chroma == Chroma::Yuv422),
                            ),
                            ..fmt
                        },
                        if a % 2 == 1 {
                            (h, w)
                        } else {
                            (w, h)
                        },
                    ),
                )
            }
        },
        PropertyModel::Iscl(s) => match s.scaled(w, h) {
            Err(e) => Err(e),
            Ok(size) => Ok((fmt, size)),
        },
        _ => Ok(f),
    }
}

/// A prediction after the properties from `i` on.
pub open spec fn predicted_after(f: Forecast, chain: Seq<PropertyEntryModel>, i: int) -> Outcome<
    Forecast,
>
    decreases chain.len() - i,
{
    if 0 <= i < chain.len() {
        match predicted_through(f, chain[i].property) {
            Err(e) => Err(e),
            Ok(g) => predicted_after(g, chain, i + 1),
        }
    } else {
        Ok(f)
    }
}

/// The predicted layout and size of an image item.
pub open spec fn predicted(n: NodeModel) -> Outcome<Forecast>
    decreases n, 1int,
{
    match predicted_before(n) {
        Err(e) => Err(e),
        Ok(f) => match predicted_after(f, n.properties.transformative(), 0) {
            Err(e) => Err(e),
            Ok(g) => Ok(
                (HeifPixelFormat { has_alpha: g.0.has_alpha || n.alpha is Some, ..g.0 }, g.1),
            ),
        },
    }
}

fn any_odd(o: &Vec<(i32, i32)>, second: bool) -> (r: bool)
    ensures
        r == (if second {
            odd_row(o@)
        } else {
            odd_column(o@)
        }),
{
    for i in 0..o.len()
        invariant
            forall|j: int|
                0 <= j < i ==> (if second {
                    (#[trigger] o@[j]).1 as int % 2 != 1
                } else {
                    o@[j].0 as int % 2 != 1
                }),
    {
        let v: i32 = if second {
            o[i].1
        } else {
            o[i].0
        };
        let k: i64 = v as i64 + 0x8000_0000;
        if k % 2 == 1 {
            assert(second ==> o@[i as int].1 as int % 2 == 1);
            assert(!second ==> o@[i as int].0 as int % 2 == 1);
            return true;
        }
    }
    false
}

fn any_forecast_alpha(v: &Vec<Forecast>) -> (r: bool)
    ensures
        r == some_alpha(v@),
{
    for i in 0..v.len()
        invariant
            forall|j: int| 0 <= j < i ==> !(#[trigger] v@[j]).0.has_alpha,
    {
        if v[i].0.has_alpha {
            assert(v@[i as int].0.has_alpha);
            return true;
        }
    }
    false
}

fn any_forecast_odd(v: &Vec<Forecast>) -> (r: bool)
    ensures
        r == some_odd(v@),
{
    for i in 0..v.len()
        invariant
            forall|j: int|
                0 <= j < i ==> !odd_chroma(
                    (#[trigger] v@[j]).0.chroma,
                    v@[j].1.0 % 2 == 1,
                    v@[j].1.1 % 2 == 1,
                ),
    {
        let (f, (w, h)): Forecast = v[i];
        if needs_444(f.chroma, w % 2 == 1, h % 2 == 1) {
            assert(v@[i as int] == (f, (w, h)));
            return true;
        }
    }
    false
}

fn promote(f: HeifPixelFormat, yes: bool) -> (r: HeifPixelFormat)
    ensures
        r == (HeifPixelFormat { chroma: chroma_if(f.chroma, yes), ..f }),
{
    if yes {
        HeifPixelFormat { chroma: Chroma::Yuv444, ..f }
    } else {
        f
    }
}

fn forecast_through(f: Forecast, p: &Property) -> (r: Result<Forecast>)
    ensures
        plain_outcome(r) == predicted_through(f, p@),
        r matches Ok(g) ==> g.0.bit_depth == f.0.bit_depth,
{
    let (fmt, (w, h)): Forecast = f;
    match p {
        Property::Clap(c) => {
            let r: CropRect = c.resolve(w, h)?;
            let odd: bool = needs_444(
                fmt.chroma,
                r.x % 2 == 1 || r.width % 2 == 1,
                r.y % 2 == 1 || r.height % 2 == 1,
            );
            Ok((promote(fmt, odd), (r.width, r.height)))
        },
        Property::Irot(r) => {
            let a: u8 = r.angle % 4;
            if a == 0 {
                Ok(f)
            } else {
                let odd: bool = needs_444(fmt.chroma, w % 2 == 1, h % 2 == 1) || (a % 2 == 1
                    && fmt.chroma == Chroma::Yuv422);
                Ok(
                    (
                        promote(fmt, odd),
                        if a % 2 == 1 {
                            (h, w)
                        } else {
                            (w, h)
                        },
                    ),
                )
            }
        },
        Property::Iscl(s) => {
            let size: (u32, u32) = s.output_size(w, h)?;
            Ok((fmt, size))
        },
        _ => Ok(f),
    }
}

fn forecast_after(f: Forecast, chain: &Vec<&PropertyEntry>) -> (r: Result<Forecast>)
    ensures
        plain_outcome(r) == predicted_after(f, crate::props::entry_views(chain@), 0),
        r matches Ok(g) ==> g.0.bit_depth == f.0.bit_depth,
{
    let ghost all = crate::props::entry_views(chain@);
    let ghost goal = predicted_after(f, all, 0);
    let mut cur: Forecast = f;
    for i in 0..chain.len()
        invariant
            all == crate::props::entry_views(chain@),
            goal == predicted_after(f, all, 0),
            goal == predicted_after(cur, all, i as int),
            cur.0.bit_depth == f.0.bit_depth,
    {
        assert(all[i as int] == chain@[i as int]@);
        cur = forecast_through(cur, &chain[i].property)?;
    }
    Ok(cur)
}

fn forecast_all(v: &Vec<ImageNode>) -> (r: Result<Vec<Forecast>>)
    ensures
        match r {
            Ok(p) => predicted_from(crate::derived::node_models(v@), 0, Seq::empty()) == Ok::<
                Seq<Forecast>,
                ErrorKind,
            >(p@) && forall|i: int| 0 <= i < p@.len() ==> (#[trigger] p@[i]).0.wf(),
            Err(e) => predicted_from(crate::derived::node_models(v@), 0, Seq::empty()) == Err::<
                Seq<Forecast>,
                ErrorKind,
            >(e.kind()),
        },
    decreases v@, 0int,
{
    let ghost all = crate::derived::node_models(v@);
    let ghost goal = predicted_from(all, 0, Seq::empty());
    let mut out: Vec<Forecast> = Vec::new();
    for i in 0..v.len()
        invariant
            all == crate::derived::node_models(v@),
            goal == predicted_from(all, 0, Seq::empty()),
            goal == predicted_from(all, i as int, out@),
            forall|k: int| 0 <= k < out@.len() ==> (#[trigger] out@[k]).0.wf(),
        decreases v.len() - i,
    {
        assert(all[i as int] == v@[i as int]@);
        let p: Forecast = predict_output(&v[i])?;
        out.push(p);
    }
    Ok(out)
}

fn alpha_forecast(v: &Vec<ImageNode>) -> (r: bool)
    ensures
        r == alpha_predicted(crate::derived::node_models(v@), 0),
    decreases v@, 0int,
{
    let ghost all = crate::derived::node_models(v@);
    let ghost goal = alpha_predicted(all, 0);
    for i in 0..v.len()
        invariant
            all == crate::derived::node_models(v@),
            goal == alpha_predicted(all, 0),
            goal == alpha_predicted(all, i as int),
        decreases v.len() - i,
    {
        assert(all[i as int] == v@[i as int]@);
        let here: bool = match predict_output(&v[i]) {
            Ok(p) => p.0.has_alpha,
            Err(_) => false,
        };
        if here {
            return true;
        }
    }
    false
}

/// Whether a canvas fill of this alpha is not opaque in a layout.
fn see_through(a: u16, f: HeifPixelFormat) -> (r: bool)
    requires
        f.wf(),
    ensures
        r == (canvas_opacity(a, max_of_depth(f.bit_depth)) < max_of_depth(f.bit_depth)),
{
    let max: u64 = f.max_value() as u64;
    assert(0 <= a * max <= 65535 * 65535) by (nonlinear_arith)
        requires
            0 <= a <= 65535,
            0 <= max <= 65535,
    ;
    (a as u64 * max + 32767) / 65535 < max
}

fn forecast_before(node: &ImageNode) -> (r: Result<Forecast>)
    ensures
        plain_outcome(r) == predicted_before(node@),
        r matches Ok(p) ==> p.0.wf(),
    decreases node, 0int,
{
    match &node.kind {
        ImageKind::Coded(_) => match layout_of(&node.properties) {
            None => Err(lacks(node.item.id, "no decoder configuration to predict a layout from")),
            Some(f) => {
                let s: (u32, u32) = node.reconstructed_size()?;
                Ok((f, s))
            },
        },
        ImageKind::Grid(g) => {
            if node.inputs.len() == 0 {
                return Err(HeifError::invalid("grid without inputs"));
            }
            assert(node@.inputs[0] == node.inputs@[0]@);
            let (f, (w, h)): Forecast = predict_output(&node.inputs[0])?;
            let has_alpha: bool = alpha_forecast(&node.inputs);
            let odd: bool = needs_444(f.chroma, w % 2 == 1, h % 2 == 1) || needs_444(
                f.chroma,
                g.output_width % 2 == 1,
                g.output_height % 2 == 1,
            );
            Ok(
                (
                    HeifPixelFormat { has_alpha, ..promote(f, odd) },
                    (g.output_width, g.output_height),
                ),
            )
        },
        ImageKind::Overlay(o) => {
            let v: Vec<Forecast> = forecast_all(&node.inputs)?;
            if v.len() == 0 {
                return Err(HeifError::invalid("iovl without inputs"));
            }
            let f: HeifPixelFormat = v[0].0;
            let odd: bool = any_forecast_alpha(&v) || needs_444(
                f.chroma,
                any_odd(&o.offsets, false) || o.output_width % 2 == 1,
                any_odd(&o.offsets, true) || o.output_height % 2 == 1,
            ) || any_forecast_odd(&v);
            let has_alpha: bool = see_through(o.canvas_fill[3], f);
            Ok(
                (
                    HeifPixelFormat { has_alpha, ..promote(f, odd) },
                    (o.output_width, o.output_height),
                ),
            )
        },
        ImageKind::Identity | ImageKind::ToneMap(_) => {
            if node.inputs.len() == 0 {
                return Err(HeifError::invalid("derived item without inputs"));
            }
            assert(node@.inputs[0] == node.inputs@[0]@);
            predict_output(&node.inputs[0])
        },
    }
}

/// Predict the output layout and size of an image item without
/// decoding, by replaying the composition layer's promotion rules on
/// the container metadata. Used for the still stream's parameters.
pub fn predict_output(node: &ImageNode) -> (r: Result<Forecast>)
    ensures
        plain_outcome(r) == predicted(node@),
        r matches Ok(p) ==> p.0.wf(),
    decreases node, 1int,
{
    let before: Forecast = forecast_before(node)?;
    let chain: Vec<&PropertyEntry> = node.properties.transformative();
    let (f, size): Forecast = forecast_after(before, &chain)?;
    Ok((HeifPixelFormat { has_alpha: f.has_alpha || node.alpha.is_some(), ..f }, size))
}

/// The framework pixel format emitted for a layout: its own, or that of its
/// 4:4:4 form, in the variant of the range.
pub open spec fn emitted_format(f: HeifPixelFormat, full_range: bool) -> Option<PixelFormat> {
    let own = match f.core_format() {
        Some(p) => Some(p),
        None => (HeifPixelFormat { chroma: Chroma::Yuv444, ..f }).core_format(),
    };
    match own {
        Some(p) => Some(
            if full_range {
                full_range_of(p)
            } else {
                p
            },
        ),
        None => None,
    }
}

/// The framework pixel format the `"heif"` decoder will emit for a
/// predicted layout (applies the same 4:4:4 promotion as
/// [`crate::image::HeifFrame::to_core`]).
pub fn core_pixel_format(fmt: HeifPixelFormat, full_range: bool) -> (r: Option<PixelFormat>)
    ensures
        r == emitted_format(fmt, full_range),
{
    let wide: HeifPixelFormat = HeifPixelFormat { chroma: Chroma::Yuv444, ..fmt };
    let own: Option<PixelFormat> = match fmt.to_core() {
        Some(p) => Some(p),
        None => wide.to_core(),
    };
    match own {
        Some(p) => Some(
            if full_range {
                full_range_variant(p)
            } else {
                p
            },
        ),
        None => None,
    }
}

/// The sample range colour information declares: full, the MIAF default,
/// without an `nclx`.
pub open spec fn declared_range(c: Option<ColrModel>) -> bool {
    match c {
        Some(ColrModel::Nclx { full_range, .. }) => full_range,
        _ => true,
    }
}

/// The sample range an item's colour information declares (the MIAF
/// default — full — when it carries no `nclx`).
pub fn item_full_range(node: &ImageNode) -> (r: bool)
    ensures
        r == declared_range(first_nclx(node@.properties.colrs())),
{
    match node.properties.nclx() {
        Some(Colr::Nclx { full_range, .. }) => *full_range,
        _ => true,
    }
}

} // verus!
