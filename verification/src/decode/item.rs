//! Image items from their item id to the decoded image.
use crate::decode::codec::{decodes_to, law_one_coded_picture, runs};
use crate::decode::describe::{
    bytes_model, colour_node, colr_model, describe, find_gain_map, gain_map_of, ids_of,
    metadata_from, text_model, DecodedImage, GainMapAttachment, SourceModel,
};
use crate::decode::session::{
    output_of, outputs_from, reconstructed, step_of, Progress, Session, SessionModel, Step,
};
use crate::decode::{
    parameters_of, ItemDecoder, CODEC_ID_AV1, CODEC_ID_HEVC, MAX_ITEM_DECODES,
};
use crate::derived::{build_graph, graph_of, ImageNode, KindModel, NodeModel};
use crate::error::{ErrorKind, Outcome, Result};
use crate::file::{FileModel, HeifFile};
use crate::gainmap::GainMapModel;
use crate::image::{HeifFrame, Picture};
use crate::meta::{first_item, ItemInfoModel};
use crate::props::{
    first_icc, first_nclx, item_properties, ColrModel, ItemPropertiesModel,
};
use vstd::prelude::*;

verus! {

/// Model of [`GainMapAttachment`].
pub struct AttachmentModel {
    /// The `tmap` item.
    pub tmap_item_id: u32,
    /// The gain-map image item.
    pub gain_map_item_id: u32,
    /// The parsed `tmap` payload.
    pub metadata: GainMapModel,
    /// The gain map's output image.
    pub frame: Picture,
    /// The gain-map item's own `nclx`.
    pub colr: Option<ColrModel>,
    /// The alternate image's colour information.
    pub alternate_colr: Option<ColrModel>,
}

impl View for GainMapAttachment {
    type V = AttachmentModel;

    open spec fn view(&self) -> AttachmentModel {
        AttachmentModel {
            tmap_item_id: self.tmap_item_id,
            gain_map_item_id: self.gain_map_item_id,
            metadata: self.metadata@,
            frame: self.frame@.picture(),
            colr: colr_model(self.colr),
            alternate_colr: colr_model(self.alternate_colr),
        }
    }
}

/// Model of [`DecodedImage`].
pub struct ImageModel {
    /// The item that was decoded.
    pub item_id: u32,
    /// The output image.
    pub frame: Picture,
    /// Whether colour samples are pre-multiplied by the alpha plane.
    pub premultiplied_alpha: bool,
    /// The depth-map auxiliary.
    pub depth: Option<Picture>,
    /// Effective CICP colour information.
    pub nclx: ColrModel,
    /// Whether `nclx` came from the file.
    pub nclx_explicit: bool,
    /// ICC profile.
    pub icc_profile: Option<Seq<u8>>,
    /// Exif payload.
    pub exif: Option<Seq<u8>>,
    /// XMP packet.
    pub xmp: Option<Seq<char>>,
    /// Item ids of the thumbnails.
    pub thumbnail_ids: Seq<u32>,
    /// The item's typed properties.
    pub properties: ItemPropertiesModel,
    /// The gain map.
    pub gain_map: Option<AttachmentModel>,
}

/// What a frame that may be absent shows.
pub open spec fn shown_frame(f: Option<HeifFrame>) -> Option<Picture> {
    match f {
        Some(x) => Some(x@.picture()),
        None => None,
    }
}

impl View for DecodedImage {
    type V = ImageModel;

    open spec fn view(&self) -> ImageModel {
        ImageModel {
            item_id: self.item_id,
            frame: self.frame@.picture(),
            premultiplied_alpha: self.premultiplied_alpha,
            depth: shown_frame(self.depth),
            nclx: self.nclx@,
            nclx_explicit: self.nclx_explicit,
            icc_profile: bytes_model(self.icc_profile),
            exif: bytes_model(self.exif),
            xmp: text_model(self.xmp),
            thumbnail_ids: self.thumbnail_ids@,
            properties: self.properties@,
            gain_map: match self.gain_map {
                Some(g) => Some(g@),
                None => None,
            },
        }
    }
}

/// How far an image got in a session, and the session then.
pub type Ran = Outcome<(Step<Picture>, SessionModel)>;

/// The decoded image of a node, from its pictures and its gain map.
pub open spec fn described(
    f: FileModel,
    n: NodeModel,
    decoder: ItemDecoder,
    frame: Picture,
    depth: Option<Picture>,
    gain_map: Option<AttachmentModel>,
) -> Outcome<Option<ImageModel>> {
    match metadata_from(f, n.metadata, 0, None, None) {
        Err(e) => Err(e),
        Ok(m) => {
            let colours = colour_node(n, decoder.tone_map).properties.colrs();
            Ok(
                Some(
                    ImageModel {
                        item_id: n.item.id,
                        frame,
                        premultiplied_alpha: n.premultiplied_alpha && n.alpha is Some,
                        depth,
                        nclx: match first_nclx(colours) {
                            Some(c) => c,
                            None => ColrModel::miaf_default(),
                        },
                        nclx_explicit: first_nclx(colours) is Some,
                        icc_profile: first_icc(colours),
                        exif: m.0,
                        xmp: m.1,
                        thumbnail_ids: ids_of(n.thumbnails),
                        properties: n.properties,
                        gain_map,
                    },
                ),
            )
        },
    }
}

/// The attachment of a gain map, from its decoded output image.
pub open spec fn attachment_of(f: FileModel, s: SourceModel, frame: Picture) -> Outcome<
    AttachmentModel,
> {
    match f.meta {
        None => Err(ErrorKind::Invalid),
        Some(m) => match item_properties(m, s.tmap_item_id) {
            Err(e) => Err(e),
            Ok(p) => Ok(
                AttachmentModel {
                    tmap_item_id: s.tmap_item_id,
                    gain_map_item_id: s.node.item.id,
                    metadata: s.metadata,
                    frame,
                    colr: first_nclx(s.node.properties.colrs()),
                    alternate_colr: first_nclx(p.colrs()),
                },
            ),
        },
    }
}

/// Whether the decoded image of a node is `out`, from its output image and that of
/// its depth map: the gain map is looked for and decoded.
pub open spec fn with_gain_map(
    f: FileModel,
    n: NodeModel,
    s: SessionModel,
    frame: Picture,
    depth: Option<Picture>,
    out: Outcome<Option<ImageModel>>,
) -> bool {
    match gain_map_of(f, n) {
        Err(e) => out == Err::<Option<ImageModel>, ErrorKind>(e),
        Ok(None) => out == described(f, n, s.decoder, frame, depth, None),
        Ok(Some(g)) => exists|x: Ran|
            {
                &&& #[trigger] runs(f, g.node, s, x)
                &&& out == (match x {
                    Err(e) => Err(e),
                    Ok((Step::Done(p), _)) => match attachment_of(f, g, p) {
                        Err(e) => Err(e),
                        Ok(a) => described(f, n, s.decoder, frame, depth, Some(a)),
                    },
                    Ok(_) => Ok(None),
                })
            },
    }
}

/// Whether the decoded image of a node is `out`, from its output image: its depth map
/// is decoded, and its gain map looked for.
pub open spec fn with_depth(
    f: FileModel,
    n: NodeModel,
    s: SessionModel,
    frame: Picture,
    out: Outcome<Option<ImageModel>>,
) -> bool {
    match n.depth {
        None => with_gain_map(f, n, s, frame, None, out),
        Some(d) => exists|x: Ran|
            {
                &&& #[trigger] runs(f, *d, s, x)
                &&& match x {
                    Err(e) => out == Err::<Option<ImageModel>, ErrorKind>(e),
                    Ok((Step::Done(q), u)) => with_gain_map(f, n, u, frame, Some(q), out),
                    Ok(_) => out == Ok::<Option<ImageModel>, ErrorKind>(None),
                }
            },
    }
}

/// Whether `out` is the decoded image of a node: its output image, its depth map,
/// its gain map and what describes it. `None` when a gain map has to be applied
/// first.
pub open spec fn image_from(
    f: FileModel,
    n: NodeModel,
    s: SessionModel,
    out: Outcome<Option<ImageModel>>,
) -> bool {
    exists|x: Ran|
        {
            &&& #[trigger] runs(f, n, s, x)
            &&& match x {
                Err(e) => out == Err::<Option<ImageModel>, ErrorKind>(e),
                Ok((Step::Done(p), t)) => with_depth(f, n, t, p, out),
                Ok(_) => out == Ok::<Option<ImageModel>, ErrorKind>(None),
            }
        }
}

/// A session in which nothing was decoded yet.
pub open spec fn fresh(decoder: ItemDecoder) -> SessionModel {
    SessionModel { decoder, pictures: Map::empty(), tone_mapped: Map::empty(), decodes: 0 }
}

/// Whether `out` is the decoded image of an item.
pub open spec fn image_of(
    f: FileModel,
    id: u32,
    decoder: ItemDecoder,
    out: Outcome<Option<ImageModel>>,
) -> bool {
    match graph_of(f, id) {
        Err(e) => out == Err::<Option<ImageModel>, ErrorKind>(e),
        Ok(n) => image_from(f, n, fresh(decoder), out),
    }
}

/// What contracts say of a decoded image.
pub open spec fn image_outcome(r: Result<Option<DecodedImage>>) -> Outcome<Option<ImageModel>> {
    match r {
        Err(e) => Err(e.kind()),
        Ok(None) => Ok(None),
        Ok(Some(d)) => Ok(Some(d@)),
    }
}

/// A decoded image names the item that was asked for.
#[verifier::rlimit(50)]
pub proof fn law_decoded_item(
    f: FileModel,
    id: u32,
    decoder: ItemDecoder,
    out: Outcome<Option<ImageModel>>,
)
    requires
        image_of(f, id, decoder, out),
    ensures
        out matches Ok(Some(i)) ==> i.item_id == id,
{
    if let Some(m) = f.meta {
        lemma_first_item(m.items, id);
    }
    assert(graph_of(f, id) matches Ok(n) ==> n.item.id == id);
}

proof fn lemma_first_item(items: Seq<ItemInfoModel>, id: u32)
    ensures
        first_item(items, id) matches Some(x) ==> x.id == id,
    decreases items.len(),
{
    if items.len() > 0 {
        lemma_first_item(items.drop_first(), id);
    }
}

/// Every item decoded in a session leaves its decoder as it is.
proof fn lemma_same_decoder(f: FileModel, n: NodeModel, s: SessionModel, out: Ran)
    requires
        runs(f, n, s, out),
    ensures
        out matches Ok((_, t)) ==> t.decoder == s.decoder,
    decreases MAX_ITEM_DECODES - s.decodes,
{
    match output_of(n, s) {
        Ok(Step::Decode(m)) => {
            let x = choose|x: Outcome<Picture>|
                {
                    &&& #[trigger] decodes_to(f, m, s.decoder, x)
                    &&& match x {
                        Err(e) => out == Err::<(Step<Picture>, SessionModel), ErrorKind>(e),
                        Ok(p) => if s.decodes >= MAX_ITEM_DECODES {
                            out == Err::<(Step<Picture>, SessionModel), ErrorKind>(
                                ErrorKind::Exhausted,
                            )
                        } else {
                            runs(f, n, s.with_picture(m.item.id, p), out)
                        },
                    }
                };
            if let Ok(p) = x {
                if s.decodes < MAX_ITEM_DECODES {
                    lemma_same_decoder(f, n, s.with_picture(m.item.id, p), out);
                }
            }
        },
        _ => {},
    }
}

/// What contracts say of a run.
pub open spec fn ran(r: Result<Progress>, s: Session) -> Ran {
    match step_of(r) {
        Ok(x) => Ok((x, s@)),
        Err(e) => Err(e),
    }
}

fn run_node<'a>(session: &mut Session, file: &HeifFile, node: &'a ImageNode) -> (r: Result<
    Option<HeifFrame>,
>)
    requires
        old(session).wf(),
    ensures
        final(session).wf(),
        match r {
            Err(e) => runs(
                file@,
                node@,
                old(session)@,
                Err::<(Step<Picture>, SessionModel), ErrorKind>(e.kind()),
            ),
            Ok(Some(f)) => {
                &&& runs(
                    file@,
                    node@,
                    old(session)@,
                    Ok::<(Step<Picture>, SessionModel), ErrorKind>(
                        (Step::Done(f@.picture()), final(session)@),
                    ),
                )
                &&& final(session)@.decoder == old(session)@.decoder
            },
            Ok(None) => exists|x: Step<Picture>|
                #![trigger runs(
                    file@,
                    node@,
                    old(session)@,
                    Ok::<(Step<Picture>, SessionModel), ErrorKind>((x, final(session)@)),
                )]
                !(x is Done) && runs(
                    file@,
                    node@,
                    old(session)@,
                    Ok::<(Step<Picture>, SessionModel), ErrorKind>((x, final(session)@)),
                ),
        },
{
    let ghost before = session@;
    let progress: Result<Progress<'a>> = session.run(file, node);
    let ghost out = ran(progress, *session);
    match progress {
        Err(e) => Err(e),
        Ok(Progress::Output(f)) => {
            proof {
                lemma_same_decoder(file@, node@, before, out);
            }
            Ok(Some(f))
        },
        Ok(_) => {
            assert(runs(file@, node@, before, out));
            Ok(None)
        },
    }
}

fn add_gain_map(
    file: &HeifFile,
    node: &ImageNode,
    session: Session,
    decoder: ItemDecoder,
    frame: HeifFrame,
    depth: Option<HeifFrame>,
) -> (r: Result<Option<DecodedImage>>)
    requires
        session.wf(),
        session@.decoder == decoder,
    ensures
        with_gain_map(
            file@,
            node@,
            session@,
            frame@.picture(),
            shown_frame(depth),
            image_outcome(r),
        ),
{
    let mut session: Session = session;
    let gain_map: Option<GainMapAttachment> = match find_gain_map(file, node)? {
        None => None,
        Some(source) => {
            let gain: HeifFrame = match run_node(&mut session, file, &source.node)? {
                Some(f) => f,
                None => {
                    return Ok(None);
                },
            };
            Some(source.attach(file, gain)?)
        },
    };
    Ok(Some(describe(file, node, decoder.tone_map, frame, depth, gain_map)?))
}

/// The decoded image of a graph, with the pictures a session holds already.
/// `None` when a gain map has to be applied first.
#[verifier::rlimit(50)]
pub fn decode_graph(file: &HeifFile, node: &ImageNode, session: Session) -> (r: Result<
    Option<DecodedImage>,
>)
    requires
        session.wf(),
    ensures
        image_from(file@, node@, session@, image_outcome(r)),
{
    let mut session: Session = session;
    let decoder: ItemDecoder = session.decoder();
    let frame: HeifFrame = match run_node(&mut session, file, node)? {
        Some(f) => f,
        None => {
            return Ok(None);
        },
    };
    let ghost after_frame = session@;
    let depth: Option<HeifFrame> = match &node.depth {
        None => None,
        Some(d) => match run_node(&mut session, file, d)? {
            Some(f) => Some(f),
            None => {
                assert(with_depth(file@, node@, after_frame, frame@.picture(), Ok(None)));
                return Ok(None);
            },
        },
    };
    let r: Result<Option<DecodedImage>> = add_gain_map(file, node, session, decoder, frame, depth);
    r
}

/// Decode one image item to its output image with everything that describes
/// it. `None` when a gain map has to be applied first.
pub fn decode_item(file: &HeifFile, item_id: u32, decoder: ItemDecoder) -> (r: Result<
    Option<DecodedImage>,
>)
    ensures
        image_of(file@, item_id, decoder, image_outcome(r)),
{
    let node: ImageNode = build_graph(file, item_id)?;
    decode_graph(file, &node, Session::new(decoder))
}

/// Decode the primary item (`pitm`).
pub fn decode_primary(file: &HeifFile, decoder: ItemDecoder) -> (r: Result<Option<DecodedImage>>)
    ensures
        match file@.primary() {
            None => image_outcome(r) == Err::<Option<ImageModel>, ErrorKind>(ErrorKind::Invalid),
            Some(item) => image_of(file@, item.id, decoder, image_outcome(r)),
        },
{
    let id: u32 = file.primary_item()?.id;
    decode_item(file, id, decoder)
}

/// Whether an item is not handed to the AVC decoder.
pub open spec fn settled(n: NodeModel) -> bool {
    parameters_of(n) matches Ok(p) ==> p.codec_id == CODEC_ID_HEVC@ || p.codec_id == CODEC_ID_AV1@
}

/// Whether no item that the output image of a node is made of is handed to the AVC
/// decoder.
pub open spec fn without_avc(n: NodeModel) -> bool
    decreases n,
{
    &&& settled(n)
    &&& forall|i: int| 0 <= i < n.inputs.len() ==> without_avc(#[trigger] n.inputs[i])
    &&& n.alpha matches Some(a) ==> without_avc(*a)
}

/// Whether no item of the decoded image of a node is handed to the AVC decoder.
pub open spec fn image_without_avc(f: FileModel, n: NodeModel) -> bool {
    &&& without_avc(n)
    &&& n.depth matches Some(d) ==> without_avc(*d)
    &&& gain_map_of(f, n) matches Ok(Some(g)) ==> without_avc(g.node)
}

proof fn lemma_all_settled(v: Seq<NodeModel>, s: SessionModel, i: int, acc: Seq<Picture>)
    requires
        forall|k: int| 0 <= k < v.len() ==> without_avc(#[trigger] v[k]),
    ensures
        outputs_from(v, s, i, acc) matches Ok(Step::Decode(m)) ==> settled(m),
    decreases v, 0int, v.len() - i,
{
    if 0 <= i < v.len() {
        assert(without_avc(v[i]));
        lemma_settled(v[i], s);
        match output_of(v[i], s) {
            Ok(Step::Done(p)) => {
                lemma_all_settled(v, s, i + 1, acc.push(p));
            },
            _ => {},
        }
    }
}

/// What is decoded for a node is the node or one that it is made of.
proof fn lemma_settled(n: NodeModel, s: SessionModel)
    requires
        without_avc(n),
    ensures
        output_of(n, s) matches Ok(Step::Decode(m)) ==> settled(m),
    decreases n, 1int, 0int,
{
    match n.kind {
        KindModel::Coded(_) => {},
        KindModel::Grid(_) | KindModel::Overlay(_) => {
            lemma_all_settled(n.inputs, s, 0, Seq::empty());
        },
        KindModel::Identity | KindModel::ToneMap(_) => {
            if n.inputs.len() > 0 {
                assert(without_avc(n.inputs[0]));
                lemma_settled(n.inputs[0], s);
            }
            if n.inputs.len() > 1 {
                assert(without_avc(n.inputs[1]));
                lemma_settled(n.inputs[1], s);
            }
        },
    }
    assert(reconstructed(n, s) matches Ok(Step::Decode(m)) ==> settled(m));
    if let Some(a) = n.alpha {
        lemma_settled(*a, s);
    }
}

proof fn lemma_one_run(f: FileModel, n: NodeModel, s: SessionModel, a: Ran, b: Ran)
    requires
        without_avc(n),
        runs(f, n, s, a),
        runs(f, n, s, b),
    ensures
        a == b,
    decreases MAX_ITEM_DECODES - s.decodes,
{
    match output_of(n, s) {
        Ok(Step::Decode(m)) => {
            let x = choose|x: Outcome<Picture>|
                {
                    &&& #[trigger] decodes_to(f, m, s.decoder, x)
                    &&& match x {
                        Err(e) => a == Err::<(Step<Picture>, SessionModel), ErrorKind>(e),
                        Ok(p) => if s.decodes >= MAX_ITEM_DECODES {
                            a == Err::<(Step<Picture>, SessionModel), ErrorKind>(
                                ErrorKind::Exhausted,
                            )
                        } else {
                            runs(f, n, s.with_picture(m.item.id, p), a)
                        },
                    }
                };
            let y = choose|y: Outcome<Picture>|
                {
                    &&& #[trigger] decodes_to(f, m, s.decoder, y)
                    &&& match y {
                        Err(e) => b == Err::<(Step<Picture>, SessionModel), ErrorKind>(e),
                        Ok(p) => if s.decodes >= MAX_ITEM_DECODES {
                            b == Err::<(Step<Picture>, SessionModel), ErrorKind>(
                                ErrorKind::Exhausted,
                            )
                        } else {
                            runs(f, n, s.with_picture(m.item.id, p), b)
                        },
                    }
                };
            lemma_settled(n, s);
            law_one_coded_picture(f, m, s.decoder, x, y);
            if let Ok(p) = x {
                if s.decodes < MAX_ITEM_DECODES {
                    lemma_one_run(f, n, s.with_picture(m.item.id, p), a, b);
                }
            }
        },
        _ => {},
    }
}

proof fn lemma_one_gain_map(
    f: FileModel,
    n: NodeModel,
    s: SessionModel,
    frame: Picture,
    depth: Option<Picture>,
    a: Outcome<Option<ImageModel>>,
    b: Outcome<Option<ImageModel>>,
)
    requires
        image_without_avc(f, n),
        with_gain_map(f, n, s, frame, depth, a),
        with_gain_map(f, n, s, frame, depth, b),
    ensures
        a == b,
{
    if let Ok(Some(g)) = gain_map_of(f, n) {
        assert forall|x: Ran, y: Ran| #[trigger]
            runs(f, g.node, s, x) && #[trigger] runs(f, g.node, s, y) implies x == y by {
            lemma_one_run(f, g.node, s, x, y);
        }
    }
}

proof fn lemma_one_depth(
    f: FileModel,
    n: NodeModel,
    s: SessionModel,
    frame: Picture,
    a: Outcome<Option<ImageModel>>,
    b: Outcome<Option<ImageModel>>,
)
    requires
        image_without_avc(f, n),
        with_depth(f, n, s, frame, a),
        with_depth(f, n, s, frame, b),
    ensures
        a == b,
{
    match n.depth {
        None => {
            lemma_one_gain_map(f, n, s, frame, None, a, b);
        },
        Some(d) => {
            let x = choose|x: Ran|
                {
                    &&& #[trigger] runs(f, *d, s, x)
                    &&& match x {
                        Err(e) => a == Err::<Option<ImageModel>, ErrorKind>(e),
                        Ok((Step::Done(q), u)) => with_gain_map(f, n, u, frame, Some(q), a),
                        Ok(_) => a == Ok::<Option<ImageModel>, ErrorKind>(None),
                    }
                };
            let y = choose|y: Ran|
                {
                    &&& #[trigger] runs(f, *d, s, y)
                    &&& match y {
                        Err(e) => b == Err::<Option<ImageModel>, ErrorKind>(e),
                        Ok((Step::Done(q), u)) => with_gain_map(f, n, u, frame, Some(q), b),
                        Ok(_) => b == Ok::<Option<ImageModel>, ErrorKind>(None),
                    }
                };
            lemma_one_run(f, *d, s, x, y);
            if let Ok((Step::Done(q), u)) = x {
                lemma_one_gain_map(f, n, u, frame, Some(q), a, b);
            }
        },
    }
}

/// An item has one decoded image, or is refused in one way, unless a picture that the
/// image is made of is handed to the AVC decoder, which may answer differently.
#[verifier::rlimit(50)]
pub proof fn law_one_image(
    f: FileModel,
    id: u32,
    decoder: ItemDecoder,
    a: Outcome<Option<ImageModel>>,
    b: Outcome<Option<ImageModel>>,
)
    requires
        graph_of(f, id) matches Ok(n) ==> image_without_avc(f, n),
        image_of(f, id, decoder, a),
        image_of(f, id, decoder, b),
    ensures
        a == b,
{
    if let Ok(n) = graph_of(f, id) {
        let s = fresh(decoder);
        let x = choose|x: Ran|
            {
                &&& #[trigger] runs(f, n, s, x)
                &&& match x {
                    Err(e) => a == Err::<Option<ImageModel>, ErrorKind>(e),
                    Ok((Step::Done(p), t)) => with_depth(f, n, t, p, a),
                    Ok(_) => a == Ok::<Option<ImageModel>, ErrorKind>(None),
                }
            };
        let y = choose|y: Ran|
            {
                &&& #[trigger] runs(f, n, s, y)
                &&& match y {
                    Err(e) => b == Err::<Option<ImageModel>, ErrorKind>(e),
                    Ok((Step::Done(p), t)) => with_depth(f, n, t, p, b),
                    Ok(_) => b == Ok::<Option<ImageModel>, ErrorKind>(None),
                }
            };
        lemma_one_run(f, n, s, x, y);
        if let Ok((Step::Done(p), t)) = x {
            lemma_one_depth(f, n, t, p, a, b);
        }
    }
}

} // verus!
