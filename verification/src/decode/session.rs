//! The decoding of one image: a graph is composed from pictures that are
//! decoded one by one, each coded item once.
use crate::compose::grid::{composite_grid, frames, grid_picture};
use crate::compose::overlay::{
    alpha_in_range, composite_overlay, input_models, overlay_picture, InputModel, OverlayInput,
};
use crate::compose::{apply_transforms, attach_alpha, pictured, transformed_from};
use crate::decode::{lacks, ItemDecoder, ToneMapOutput, MAX_ITEM_DECODES};
use crate::derived::{node_models, ImageKind, ImageNode, KindModel, NodeModel, OverlayModel};
use crate::error::{ErrorKind, HeifError, Outcome, Result};
use crate::gainmap::{tone_map_of, GainMapMetadata, GainMapModel};
use crate::image::{max_of_depth, HeifFrame, Picture};
use crate::props::{
    first_nclx, unknown_essential, ItemProperties, ItemPropertiesModel, PropertyKind, PropertyModel,
};
use std::collections::HashMap;
use vstd::prelude::*;

verus! {

broadcast use vstd::std_specs::hash::group_hash_axioms;

/// The pictures decoded so far for one image, and how its items are decoded.
#[derive(Debug)]
pub struct Session {
    decoder: ItemDecoder,
    pictures: HashMap<u32, HeifFrame>,
    tone_mapped: HashMap<u32, HeifFrame>,
    decodes: usize,
}

/// Model of [`Session`].
#[verifier::ext_equal]
pub struct SessionModel {
    /// How items are decoded.
    pub decoder: ItemDecoder,
    /// The decoded pictures of coded items.
    pub pictures: Map<u32, Picture>,
    /// The reconstructions of tone maps.
    pub tone_mapped: Map<u32, Picture>,
    /// How many items were decoded.
    pub decodes: usize,
}

/// What the frames of a map show.
pub open spec fn shown(m: Map<u32, HeifFrame>) -> Map<u32, Picture> {
    m.map_values(|f: HeifFrame| f@.picture())
}

impl View for Session {
    type V = SessionModel;

    closed spec fn view(&self) -> SessionModel {
        SessionModel {
            decoder: self.decoder,
            pictures: shown(self.pictures@),
            tone_mapped: shown(self.tone_mapped@),
            decodes: self.decodes,
        }
    }
}

/// A tone map whose gain map is to be applied.
#[derive(Debug)]
pub struct ToneMapJob<'a> {
    /// The `tmap` node.
    pub node: &'a ImageNode,
    /// The parsed `tmap` payload.
    pub metadata: GainMapMetadata,
    /// Output image of the base input.
    pub base: HeifFrame,
    /// Output image of the gain-map input.
    pub gain: HeifFrame,
    /// Bit depth of the reconstruction.
    pub bit_depth: u8,
}

/// Model of [`ToneMapJob`].
pub struct ToneMapModel {
    /// The `tmap` node.
    pub node: NodeModel,
    /// The parsed `tmap` payload.
    pub metadata: GainMapModel,
    /// Output image of the base input.
    pub base: Picture,
    /// Output image of the gain-map input.
    pub gain: Picture,
    /// Bit depth of the reconstruction.
    pub bit_depth: u8,
}

/// How far the composition of an image has come.
#[derive(Debug)]
pub enum Progress<'a> {
    /// The output image.
    Output(HeifFrame),
    /// A coded item has to be decoded first.
    Decode(&'a ImageNode),
    /// A gain map has to be applied first.
    ToneMap(ToneMapJob<'a>),
}

enum Outputs<'a> {
    Done(Vec<HeifFrame>),
    Decode(&'a ImageNode),
    ToneMap(ToneMapJob<'a>),
}

/// What contracts say of how far a computation has come.
pub enum Step<T> {
    /// Its result.
    Done(T),
    /// A coded item has to be decoded first.
    Decode(NodeModel),
    /// A gain map has to be applied first.
    ToneMap(ToneMapModel),
}

impl<'a> View for ToneMapJob<'a> {
    type V = ToneMapModel;

    open spec fn view(&self) -> ToneMapModel {
        ToneMapModel {
            node: self.node@,
            metadata: self.metadata@,
            base: self.base@.picture(),
            gain: self.gain@.picture(),
            bit_depth: self.bit_depth,
        }
    }
}

spec fn list_step(r: Result<Outputs>) -> Outcome<Step<Seq<Picture>>> {
    match r {
        Err(e) => Err(e.kind()),
        Ok(Outputs::Done(v)) => Ok(Step::Done(frames(v@))),
        Ok(Outputs::Decode(n)) => Ok(Step::Decode(n@)),
        Ok(Outputs::ToneMap(j)) => Ok(Step::ToneMap(j@)),
    }
}

/// What contracts say of a [`Progress`].
pub open spec fn step_of(r: Result<Progress>) -> Outcome<Step<Picture>> {
    match r {
        Err(e) => Err(e.kind()),
        Ok(Progress::Output(f)) => Ok(Step::Done(f@.picture())),
        Ok(Progress::Decode(n)) => Ok(Step::Decode(n@)),
        Ok(Progress::ToneMap(j)) => Ok(Step::ToneMap(j@)),
    }
}

/// The bit depth a tone map is reconstructed at: the first one of its `pixi`
/// if that is a depth of a picture, else that of the base image.
pub open spec fn tone_map_depth(p: ItemPropertiesModel, base: u8) -> u8 {
    match p.first(PropertyKind::Pixi) {
        Some(PropertyModel::Pixi(x)) => if x.bits_per_channel.len() > 0 && 8
            <= x.bits_per_channel[0] <= 16 {
            x.bits_per_channel[0]
        } else {
            base
        },
        _ => base,
    }
}

/// The inputs of an overlay: the pictures of the nodes, with their
/// pre-multiplication.
pub open spec fn overlay_inputs(v: Seq<NodeModel>, pictures: Seq<Picture>) -> Seq<InputModel> {
    Seq::new(
        v.len(),
        |i: int|
            InputModel {
                frame: pictures[i],
                premultiplied: v[i].premultiplied_alpha && v[i].alpha is Some,
            },
    )
}

/// Whether the alpha samples of every picture are in range.
pub open spec fn all_in_range(o: OverlayModel, pictures: Seq<Picture>) -> bool {
    forall|i: int|
        0 <= i < pictures.len() && i < o.offsets.len() ==> alpha_in_range(
            #[trigger] pictures[i],
            o.offsets[i],
            (o.output_width, o.output_height),
        )
}

/// The output images of the nodes from `i` on, behind those in `acc`.
pub open spec fn outputs_from(
    v: Seq<NodeModel>,
    s: SessionModel,
    i: int,
    acc: Seq<Picture>,
) -> Outcome<Step<Seq<Picture>>>
    decreases v, v.len() - i,
{
    if 0 <= i < v.len() {
        match output_of(v[i], s) {
            Err(e) => Err(e),
            Ok(Step::Done(p)) => outputs_from(v, s, i + 1, acc.push(p)),
            Ok(Step::Decode(n)) => Ok(Step::Decode(n)),
            Ok(Step::ToneMap(j)) => Ok(Step::ToneMap(j)),
        }
    } else {
        Ok(Step::Done(acc))
    }
}

/// A result that needs nothing more.
pub open spec fn done(r: Outcome<Picture>) -> Outcome<Step<Picture>> {
    match r {
        Ok(p) => Ok(Step::Done(p)),
        Err(e) => Err(e),
    }
}

/// The reconstructed image of a node (§6.3, first bullet): decoded picture or
/// derivation result, before the node's own transformative properties.
pub open spec fn reconstructed(n: NodeModel, s: SessionModel) -> Outcome<Step<Picture>>
    decreases n, 0int,
{
    match n.kind {
        KindModel::Coded(_) => if s.pictures.contains_key(n.item.id) {
            Ok(Step::Done(s.pictures[n.item.id]))
        } else if s.decodes >= MAX_ITEM_DECODES {
            Err(ErrorKind::Exhausted)
        } else {
            Ok(Step::Decode(n))
        },
        KindModel::Grid(g) => match outputs_from(n.inputs, s, 0, Seq::empty()) {
            Err(e) => Err(e),
            Ok(Step::Done(tiles)) => if tiles.len() == 0 {
                Err(ErrorKind::Invalid)
            } else {
                done(grid_picture(g, tiles))
            },
            Ok(Step::Decode(m)) => Ok(Step::Decode(m)),
            Ok(Step::ToneMap(j)) => Ok(Step::ToneMap(j)),
        },
        KindModel::Overlay(o) => match outputs_from(n.inputs, s, 0, Seq::empty()) {
            Err(e) => Err(e),
            Ok(Step::Done(pictures)) => if !all_in_range(o, pictures) {
                Err(ErrorKind::Invalid)
            } else {
                done(
                    overlay_picture(
                        o,
                        overlay_inputs(n.inputs, pictures),
                        first_nclx(n.properties.colrs()),
                    ),
                )
            },
            Ok(Step::Decode(m)) => Ok(Step::Decode(m)),
            Ok(Step::ToneMap(j)) => Ok(Step::ToneMap(j)),
        },
        KindModel::Identity => if n.inputs.len() == 0 {
            Err(ErrorKind::Invalid)
        } else {
            output_of(n.inputs[0], s)
        },
        KindModel::ToneMap(body) => if n.inputs.len() == 0 {
            Err(ErrorKind::Invalid)
        } else if s.decoder.tone_map == ToneMapOutput::Base && n.depth_in_chain == 0 {
            output_of(n.inputs[0], s)
        } else if n.inputs.len() == 1 {
            Err(ErrorKind::Invalid)
        } else {
            match tone_map_of(body) {
                Err(e) => Err(e),
                Ok(metadata) => match (output_of(n.inputs[0], s), output_of(n.inputs[1], s)) {
                    (Ok(Step::Done(base)), Ok(Step::Done(gain))) => if s.tone_mapped.contains_key(
                        n.item.id,
                    ) {
                        Ok(Step::Done(s.tone_mapped[n.item.id]))
                    } else {
                        Ok(
                            Step::ToneMap(
                                ToneMapModel {
                                    node: n,
                                    metadata,
                                    base,
                                    gain,
                                    bit_depth: tone_map_depth(n.properties, base.format.bit_depth),
                                },
                            ),
                        )
                    },
                    (Ok(Step::Done(_)), other) => other,
                    (other, _) => other,
                },
            }
        },
    }
}

/// The output image of a node (§6.3, second bullet): the reconstruction with
/// the transformative chain applied, then the alpha auxiliary attached (its own
/// output image, §6.9.1). A node with an essential property that is not
/// recognised has none.
pub open spec fn output_of(n: NodeModel, s: SessionModel) -> Outcome<Step<Picture>>
    decreases n, 1int,
{
    if unknown_essential(n.properties.entries).len() > 0 {
        Err(ErrorKind::Unsupported)
    } else {
        match reconstructed(n, s) {
            Ok(Step::Done(rec)) => match transformed_from(
                rec,
                n.properties.transformative(),
                0,
                false,
            ) {
                Err(e) => Err(e),
                Ok(out) => match n.alpha {
                    None => Ok(Step::Done(out)),
                    Some(a) => match output_of(*a, s) {
                        Ok(Step::Done(alpha)) => Ok(Step::Done(out.with_alpha_of(alpha))),
                        other => other,
                    },
                },
            },
            other => other,
        }
    }
}

fn depth_of_tone_map(props: &ItemProperties, base: u8) -> (r: u8)
    ensures
        r == tone_map_depth(props@, base),
{
    match props.pixi() {
        Some(x) => if x.bits_per_channel.len() > 0 && 8 <= x.bits_per_channel[0]
            && x.bits_per_channel[0] <= 16 {
            x.bits_per_channel[0]
        } else {
            base
        },
        None => base,
    }
}

impl SessionModel {
    /// Whether this session holds what `other` holds, and maybe more.
    pub open spec fn extends(self, other: SessionModel) -> bool {
        &&& self.decoder == other.decoder
        &&& other.pictures.submap_of(self.pictures)
        &&& other.tone_mapped.submap_of(self.tone_mapped)
    }
}

proof fn lemma_outputs_stay(v: Seq<NodeModel>, s: SessionModel, t: SessionModel, i: int, acc: Seq<Picture>)
    requires
        t.extends(s),
        outputs_from(v, s, i, acc) matches Ok(Step::Done(_)),
    ensures
        outputs_from(v, t, i, acc) == outputs_from(v, s, i, acc),
    decreases v, 0int, v.len() - i,
{
    if 0 <= i < v.len() {
        law_output_stays(v[i], s, t);
        match output_of(v[i], s) {
            Ok(Step::Done(p)) => {
                lemma_outputs_stay(v, s, t, i + 1, acc.push(p));
            },
            _ => {},
        }
    }
}

/// Once an image can be composed, decoding more items does not change it.
#[verifier::rlimit(50)]
pub proof fn law_output_stays(n: NodeModel, s: SessionModel, t: SessionModel)
    requires
        t.extends(s),
        output_of(n, s) matches Ok(Step::Done(_)),
    ensures
        output_of(n, t) == output_of(n, s),
    decreases n, 1int, 0int,
{
    assert(reconstructed(n, s) matches Ok(Step::Done(_)));
    match n.kind {
        KindModel::Coded(_) => {
            assert(s.pictures.dom().contains(n.item.id));
            assert(reconstructed(n, t) == reconstructed(n, s));
        },
        KindModel::Grid(_) | KindModel::Overlay(_) => {
            lemma_outputs_stay(n.inputs, s, t, 0, Seq::empty());
            assert(reconstructed(n, t) == reconstructed(n, s));
        },
        KindModel::Identity => {
            law_output_stays(n.inputs[0], s, t);
        },
        KindModel::ToneMap(_) => {
            law_output_stays(n.inputs[0], s, t);
            if !(s.decoder.tone_map == ToneMapOutput::Base && n.depth_in_chain == 0) {
                law_output_stays(n.inputs[1], s, t);
                assert(s.tone_mapped.dom().contains(n.item.id));
            }
            assert(reconstructed(n, t) == reconstructed(n, s));
        },
    }
    if let Some(a) = n.alpha {
        law_output_stays(*a, s, t);
    }
}

fn on_canvas(at: u32, offset: i32, size: u32) -> (r: bool)
    ensures
        r == (0 <= at + offset < size),
{
    let p: i64 = at as i64 + offset as i64;
    0 <= p && p < size as i64
}

/// Whether the alpha samples of a frame are in range where it lies on the canvas.
fn alpha_fits(f: &HeifFrame, offset: (i32, i32), size: (u32, u32)) -> (r: bool)
    requires
        f@.wf(),
    ensures
        r == alpha_in_range(f@.picture(), offset, size),
{
    let ghost pic = f@.picture();
    let ghost c = f.format.chroma.planes();
    let plane: usize = match f.format.alpha_plane() {
        None => {
            return true;
        },
        Some(p) => p,
    };
    let max: u16 = f.format.max_value();
    for y in 0..f.height
        invariant
            f@.wf(),
            f.format.has_alpha,
            pic == f@.picture(),
            c == f.format.chroma.planes(),
            plane == c,
            max == max_of_depth(f.format.bit_depth),
            forall|x: int, j: int|
                0 <= x < f.width && 0 <= j < y && 0 <= x + offset.0 < size.0 && 0 <= j + offset.1
                    < size.1 ==> (#[trigger] (pic.at)(c, x, j)) <= max,
    {
        if on_canvas(y, offset.1, size.1) {
            for x in 0..f.width
                invariant
                    f@.wf(),
                    f.format.has_alpha,
                    pic == f@.picture(),
                    c == f.format.chroma.planes(),
                    plane == c,
                    y < f.height,
                    0 <= y + offset.1 < size.1,
                    max == max_of_depth(f.format.bit_depth),
                    forall|i: int|
                        0 <= i < x && 0 <= i + offset.0 < size.0 ==> (#[trigger] (pic.at)(
                            c,
                            i,
                            y as int,
                        )) <= max,
            {
                proof {
                    crate::compose::lemma_reads(f@, c, x as int, y as int);
                }
                if on_canvas(x, offset.0, size.0) && f.sample(plane, x, y) > max {
                    assert((pic.at)(c, x as int, y as int) > max);
                    return false;
                }
            }
        }
    }
    true
}

impl Session {
    /// The frames held are pictures of their layout.
    pub closed spec fn wf(&self) -> bool {
        &&& forall|k: u32|
            #[trigger] self.pictures@.contains_key(k) ==> self.pictures@[k]@.wf()
        &&& forall|k: u32|
            #[trigger] self.tone_mapped@.contains_key(k) ==> self.tone_mapped@[k]@.wf()
    }

    /// A session in which nothing was decoded yet.
    pub fn new(decoder: ItemDecoder) -> (r: Self)
        ensures
            r.wf(),
            r@ == (SessionModel {
                decoder,
                pictures: Map::empty(),
                tone_mapped: Map::empty(),
                decodes: 0,
            }),
    {
        let r: Session = Session {
            decoder,
            pictures: HashMap::new(),
            tone_mapped: HashMap::new(),
            decodes: 0,
        };
        proof {
            assert(r@.pictures =~= Map::empty());
            assert(r@.tone_mapped =~= Map::empty());
        }
        r
    }

    /// How the items of the session are decoded.
    pub fn decoder(&self) -> (r: ItemDecoder)
        ensures
            r == self@.decoder,
    {
        self.decoder
    }

    /// Put the decoded picture of a coded item into the session.
    pub fn decoded(&mut self, item_id: u32, frame: HeifFrame) -> (r: Result<()>)
        requires
            old(self).wf(),
            frame@.wf(),
        ensures
            final(self).wf(),
            match r {
                Ok(_) => {
                    &&& old(self)@.decodes < MAX_ITEM_DECODES
                    &&& final(self)@ == (SessionModel {
                        pictures: old(self)@.pictures.insert(item_id, frame@.picture()),
                        decodes: (old(self)@.decodes + 1) as usize,
                        ..old(self)@
                    })
                },
                Err(e) => {
                    &&& old(self)@.decodes >= MAX_ITEM_DECODES
                    &&& e.kind() == ErrorKind::Exhausted
                    &&& final(self)@ == old(self)@
                },
            },
    {
        if self.decodes >= MAX_ITEM_DECODES {
            return Err(HeifError::exhausted("too many coded items in one image"));
        }
        let ghost before = self@;
        self.decodes = self.decodes + 1;
        self.pictures.insert(item_id, frame);
        proof {
            assert(self@.pictures =~= before.pictures.insert(item_id, frame@.picture()));
        }
        Ok(())
    }

    /// Put the reconstruction of a tone map into the session.
    pub fn applied(&mut self, item_id: u32, frame: HeifFrame)
        requires
            old(self).wf(),
            frame@.wf(),
        ensures
            final(self).wf(),
            final(self)@ == (SessionModel {
                tone_mapped: old(self)@.tone_mapped.insert(item_id, frame@.picture()),
                ..old(self)@
            }),
    {
        let ghost before = self@;
        self.tone_mapped.insert(item_id, frame);
        proof {
            assert(self@.tone_mapped =~= before.tone_mapped.insert(item_id, frame@.picture()));
        }
    }
}

fn overlay_of_frames(
    node: &ImageNode,
    desc: &crate::derived::OverlayDescriptor,
    fs: &Vec<HeifFrame>,
) -> (r: Result<HeifFrame>)
    requires
        fs@.len() == node.inputs@.len(),
        forall|i: int| 0 <= i < fs@.len() ==> (#[trigger] fs@[i])@.wf(),
    ensures
        pictured(r) == (if !all_in_range(desc@, frames(fs@)) {
            Err(ErrorKind::Invalid)
        } else {
            overlay_picture(
                desc@,
                overlay_inputs(node@.inputs, frames(fs@)),
                first_nclx(node@.properties.colrs()),
            )
        }),
        r matches Ok(f) ==> f@.wf(),
{
    let ghost all = frames(fs@);
    let mut inputs: Vec<OverlayInput> = Vec::new();
    for i in 0..fs.len()
        invariant
            all == frames(fs@),
            fs@.len() == node.inputs@.len(),
            forall|k: int| 0 <= k < fs@.len() ==> (#[trigger] fs@[k])@.wf(),
            inputs@.len() == i,
            forall|k: int|
                0 <= k < i && k < desc@.offsets.len() ==> alpha_in_range(
                    #[trigger] all[k],
                    desc@.offsets[k],
                    (desc.output_width, desc.output_height),
                ),
            forall|k: int|
                0 <= k < i ==> (#[trigger] inputs@[k]).frame == &fs@[k] && inputs@[k].premultiplied
                    == (node@.inputs[k].premultiplied_alpha && node@.inputs[k].alpha is Some),
    {
        assert(all[i as int] == fs@[i as int]@.picture());
        if i < desc.offsets.len() && !alpha_fits(
            &fs[i],
            desc.offsets[i],
            (desc.output_width, desc.output_height),
        ) {
            return Err(lacks(node.item.id, "alpha samples out of range"));
        }
        let n: &ImageNode = &node.inputs[i];
        assert(node@.inputs[i as int] == n@);
        inputs.push(
            OverlayInput {
                frame: &fs[i],
                premultiplied: n.premultiplied_alpha && n.alpha.is_some(),
            },
        );
    }
    proof {
        assert(input_models(inputs@) =~= overlay_inputs(node@.inputs, all));
        assert forall|k: int| 0 <= k < inputs@.len() implies (#[trigger] inputs@[k]).frame@.wf()
            && (k < desc.offsets@.len() ==> alpha_in_range(
            inputs@[k].frame@.picture(),
            desc.offsets@[k],
            (desc.output_width, desc.output_height),
        )) by {
            assert(all[k] == fs@[k]@.picture());
        }
    }
    composite_overlay(desc, inputs.as_slice(), node.properties.nclx())
}

impl Session {
    fn outputs<'a>(&self, v: &'a Vec<ImageNode>) -> (r: Result<Outputs<'a>>)
        requires
            self.wf(),
        ensures
            list_step(r) == outputs_from(node_models(v@), self@, 0, Seq::empty()),
            r matches Ok(Outputs::Done(fs)) ==> fs@.len() == v@.len() && forall|i: int|
                0 <= i < fs@.len() ==> (#[trigger] fs@[i])@.wf(),
        decreases v@, 0int,
    {
        let ghost all = node_models(v@);
        let ghost goal = outputs_from(all, self@, 0, Seq::empty());
        let mut out: Vec<HeifFrame> = Vec::new();
        proof {
            assert(frames(out@) =~= Seq::empty());
        }
        for i in 0..v.len()
            invariant
                self.wf(),
                all == node_models(v@),
                goal == outputs_from(all, self@, 0, Seq::empty()),
                goal == outputs_from(all, self@, i as int, frames(out@)),
                out@.len() == i,
                forall|k: int| 0 <= k < i ==> (#[trigger] out@[k])@.wf(),
            decreases v.len() - i,
        {
            assert(all[i as int] == v@[i as int]@);
            let ghost before = frames(out@);
            match self.output(&v[i])? {
                Progress::Output(f) => {
                    out.push(f);
                    assert(frames(out@) =~= before.push(f@.picture()));
                },
                Progress::Decode(n) => {
                    return Ok(Outputs::Decode(n));
                },
                Progress::ToneMap(j) => {
                    return Ok(Outputs::ToneMap(j));
                },
            }
        }
        Ok(Outputs::Done(out))
    }

    fn reconstruct<'a>(&self, node: &'a ImageNode) -> (r: Result<Progress<'a>>)
        requires
            self.wf(),
        ensures
            step_of(r) == reconstructed(node@, self@),
            r matches Ok(Progress::Output(f)) ==> f@.wf(),
        decreases node, 0int,
    {
        let id: u32 = node.item.id;
        match &node.kind {
            ImageKind::Coded(_) => {
                if let Some(f) = self.pictures.get(&id) {
                    return Ok(Progress::Output(f.clone()));
                }
                if self.decodes >= MAX_ITEM_DECODES {
                    return Err(HeifError::exhausted("too many coded items in one image"));
                }
                Ok(Progress::Decode(node))
            },
            ImageKind::Grid(g) => match self.outputs(&node.inputs)? {
                Outputs::Done(tiles) => {
                    if tiles.len() == 0 {
                        return Err(lacks(id, "grid without tiles"));
                    }
                    Ok(Progress::Output(composite_grid(g, tiles.as_slice())?))
                },
                Outputs::Decode(n) => Ok(Progress::Decode(n)),
                Outputs::ToneMap(j) => Ok(Progress::ToneMap(j)),
            },
            ImageKind::Overlay(o) => match self.outputs(&node.inputs)? {
                Outputs::Done(fs) => Ok(Progress::Output(overlay_of_frames(node, o, &fs)?)),
                Outputs::Decode(n) => Ok(Progress::Decode(n)),
                Outputs::ToneMap(j) => Ok(Progress::ToneMap(j)),
            },
            ImageKind::Identity => {
                if node.inputs.len() == 0 {
                    return Err(lacks(id, "iden item has no input"));
                }
                assert(node@.inputs[0] == node.inputs@[0]@);
                self.output(&node.inputs[0])
            },
            ImageKind::ToneMap(body) => {
                if node.inputs.len() == 0 {
                    return Err(lacks(id, "tmap item has no input"));
                }
                assert(node@.inputs[0] == node.inputs@[0]@);
                if self.decoder.tone_map == ToneMapOutput::Base && node.depth_in_chain == 0 {
                    return self.output(&node.inputs[0]);
                }
                if node.inputs.len() < 2 {
                    return Err(lacks(id, "tmap item has no gain map input"));
                }
                assert(node@.inputs[1] == node.inputs@[1]@);
                let metadata: GainMapMetadata = GainMapMetadata::parse_tmap_body(body.as_slice())?;
                let base: HeifFrame = match self.output(&node.inputs[0])? {
                    Progress::Output(f) => f,
                    Progress::Decode(n) => {
                        return Ok(Progress::Decode(n));
                    },
                    Progress::ToneMap(j) => {
                        return Ok(Progress::ToneMap(j));
                    },
                };
                let gain: HeifFrame = match self.output(&node.inputs[1])? {
                    Progress::Output(f) => f,
                    Progress::Decode(n) => {
                        return Ok(Progress::Decode(n));
                    },
                    Progress::ToneMap(j) => {
                        return Ok(Progress::ToneMap(j));
                    },
                };
                if let Some(f) = self.tone_mapped.get(&id) {
                    return Ok(Progress::Output(f.clone()));
                }
                let bit_depth: u8 = depth_of_tone_map(&node.properties, base.format.bit_depth);
                Ok(Progress::ToneMap(ToneMapJob { node, metadata, base, gain, bit_depth }))
            },
        }
    }

    /// The output image of a node (§6.3, second bullet), or what has to be
    /// decoded or applied before it can be composed.
    pub fn output<'a>(&self, node: &'a ImageNode) -> (r: Result<Progress<'a>>)
        requires
            self.wf(),
        ensures
            step_of(r) == output_of(node@, self@),
            r matches Ok(Progress::Output(f)) ==> f@.wf(),
        decreases node, 1int,
    {
        if node.properties.unsupported_essential().len() > 0 {
            return Err(HeifError::unsupported("essential properties not recognised"));
        }
        let rec: HeifFrame = match self.reconstruct(node)? {
            Progress::Output(f) => f,
            Progress::Decode(n) => {
                return Ok(Progress::Decode(n));
            },
            Progress::ToneMap(j) => {
                return Ok(Progress::ToneMap(j));
            },
        };
        let chain: Vec<&crate::props::PropertyEntry> = node.properties.transformative();
        let out: HeifFrame = apply_transforms(&rec, chain.as_slice(), false)?;
        match &node.alpha {
            None => Ok(Progress::Output(out)),
            Some(a) => match self.output(a)? {
                Progress::Output(alpha) => Ok(Progress::Output(attach_alpha(&out, &alpha)?)),
                Progress::Decode(n) => Ok(Progress::Decode(n)),
                Progress::ToneMap(j) => Ok(Progress::ToneMap(j)),
            },
        }
    }
}

} // verus!
