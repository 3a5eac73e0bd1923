//! What a decoded image carries besides its samples: colour information,
//! metadata, thumbnails and the gain map.
use crate::boxes::{fourcc_eq, lossy_text, utf8_lossy};
use crate::bytes::copy_of;
use crate::decode::{exif_of, exif_payload, ToneMapOutput};
use crate::derived::{build_graph, graph_of, ImageKind, ImageNode, KindModel, NodeModel};
use crate::error::{ErrorKind, Outcome, Result};
use crate::file::{Cow, FileModel, HeifFile};
use crate::gainmap::{tone_map_of, GainMapMetadata, GainMapModel};
use crate::image::HeifFrame;
use crate::meta::{
    ItemInfo, ItemInfoModel, Meta, MetaModel, ITEM_TYPE_EXIF, ITEM_TYPE_TMAP,
};
use crate::meta::reference::DIMG;
use crate::props::{first_icc, first_nclx, item_properties, Colr, ColrModel, ItemProperties};
use vstd::prelude::*;

verus! {

/// A fully reconstructed image item: the output image (§6.3) with its
/// alpha auxiliary attached, plus the descriptive metadata a renderer
/// needs.
#[derive(Debug)]
pub struct DecodedImage {
    /// The item that was decoded.
    pub item_id: u32,
    /// The output image; carries an alpha plane when the item (or the
    /// top of its derivation) has an alpha auxiliary.
    pub frame: HeifFrame,
    /// `prem`: colour samples are pre-multiplied by the alpha plane.
    pub premultiplied_alpha: bool,
    /// The depth-map auxiliary (its own output image), when present.
    pub depth: Option<HeifFrame>,
    /// Effective CICP colour information: the item's `nclx`, else the
    /// MIAF §7.3.6.4 default.
    pub nclx: Colr,
    /// `true` when `nclx` came from the file rather than the default.
    pub nclx_explicit: bool,
    /// ICC profile (`rICC` / `prof` colr), when present.
    pub icc_profile: Option<Vec<u8>>,
    /// Exif payload with the HEIF offset word resolved (Annex A.2.1):
    /// the bytes from the TIFF header on.
    pub exif: Option<Vec<u8>>,
    /// XMP packet (Annex A.3), when present.
    pub xmp: Option<String>,
    /// Item ids of the thumbnails (`thmb`) of this image.
    pub thumbnail_ids: Vec<u32>,
    /// The item's typed properties (for `pixi`, `clli`, `mdcv`, …).
    pub properties: ItemProperties,
    /// The ISO 21496-1 gain map attached through a `tmap` item whose
    /// first `dimg` input is this image (or this image itself when it
    /// is the `tmap`), decoded but not applied: [`DecodedImage::frame`]
    /// stays the baseline rendition.
    pub gain_map: Option<GainMapAttachment>,
}

/// A decoded gain map and its metadata (see [`DecodedImage::gain_map`]).
#[derive(Debug)]
pub struct GainMapAttachment {
    /// The `tmap` item.
    pub tmap_item_id: u32,
    /// The gain-map image item (second `dimg` input of the `tmap`).
    pub gain_map_item_id: u32,
    /// The parsed `tmap` payload.
    pub metadata: GainMapMetadata,
    /// The gain map's output image.
    pub frame: HeifFrame,
    /// The gain-map item's own `nclx` (its YCbCr matrix), when any.
    pub colr: Option<Colr>,
    /// The alternate image's colour information (the `tmap` item's
    /// `nclx`), when any.
    pub alternate_colr: Option<Colr>,
}

/// A gain map found in a file and not decoded yet.
#[derive(Debug)]
pub struct GainMapSource {
    /// The `tmap` item.
    pub tmap_item_id: u32,
    /// The parsed `tmap` payload.
    pub metadata: GainMapMetadata,
    /// Graph of the gain-map image item.
    pub node: ImageNode,
}

/// Model of [`GainMapSource`].
pub struct SourceModel {
    /// The `tmap` item.
    pub tmap_item_id: u32,
    /// The parsed `tmap` payload.
    pub metadata: GainMapModel,
    /// Graph of the gain-map image item.
    pub node: NodeModel,
}

impl View for GainMapSource {
    type V = SourceModel;

    open spec fn view(&self) -> SourceModel {
        SourceModel {
            tmap_item_id: self.tmap_item_id,
            metadata: self.metadata@,
            node: self.node@,
        }
    }
}

/// The first `tmap` item from `i` on whose first input is `id`.
pub open spec fn tone_map_over(m: MetaModel, id: u32, i: int) -> Option<u32>
    decreases m.items.len() - i,
{
    if 0 <= i < m.items.len() {
        let inputs = m.references_from(m.items[i].id, DIMG);
        if m.items[i].item_type == ITEM_TYPE_TMAP && inputs.len() > 0 && inputs[0] == id {
            Some(m.items[i].id)
        } else {
            tone_map_over(m, id, i + 1)
        }
    } else {
        None
    }
}

/// The gain map of a tone map, from its body and its two inputs. An unparsable
/// or unsupported payload has none (C.2.3: fall back to the base image).
pub open spec fn gain_map_in(f: FileModel, tmap: u32, body: Seq<u8>, inputs: Seq<u32>) -> Outcome<
    Option<SourceModel>,
> {
    if inputs.len() != 2 {
        Ok(None)
    } else {
        match tone_map_of(body) {
            Err(_) => Ok(None),
            Ok(metadata) => match graph_of(f, inputs[1]) {
                Err(e) => Err(e),
                Ok(node) => Ok(Some(SourceModel { tmap_item_id: tmap, metadata, node })),
            },
        }
    }
}

/// The gain map of a node: that of the node itself when it is a `tmap`, else
/// of the first `tmap` item whose first `dimg` input is the node.
pub open spec fn gain_map_of(f: FileModel, n: NodeModel) -> Outcome<Option<SourceModel>> {
    match f.meta {
        None => Err(ErrorKind::Invalid),
        Some(m) => match n.kind {
            KindModel::ToneMap(body) => gain_map_in(
                f,
                n.item.id,
                body,
                m.references_from(n.item.id, DIMG),
            ),
            _ => match tone_map_over(m, n.item.id, 0) {
                None => Ok(None),
                Some(t) => match f.item_bytes(t) {
                    Err(e) => Err(e),
                    Ok(body) => gain_map_in(f, t, body, m.references_from(t, DIMG)),
                },
            },
        },
    }
}

/// What contracts say of a gain map that was looked for.
pub open spec fn source_outcome(r: Result<Option<GainMapSource>>) -> Outcome<Option<SourceModel>> {
    match r {
        Err(e) => Err(e.kind()),
        Ok(None) => Ok(None),
        Ok(Some(s)) => Ok(Some(s@)),
    }
}

fn find_tone_map(meta: &Meta, id: u32) -> (r: Option<u32>)
    ensures
        r == tone_map_over(meta@, id, 0),
{
    let ghost m = meta@;
    let ghost goal = tone_map_over(m, id, 0);
    for i in 0..meta.items.len()
        invariant
            m == meta@,
            goal == tone_map_over(m, id, 0),
            goal == tone_map_over(m, id, i as int),
    {
        let it: &ItemInfo = &meta.items[i];
        assert(m.items[i as int] == it@);
        let inputs: Vec<u32> = meta.derivation_inputs(it.id);
        if fourcc_eq(&it.item_type, &ITEM_TYPE_TMAP) && inputs.len() > 0 && inputs[0] == id {
            return Some(it.id);
        }
    }
    None
}

fn gain_map_source(file: &HeifFile, tmap: u32, body: &[u8], inputs: Vec<u32>) -> (r: Result<
    Option<GainMapSource>,
>)
    ensures
        source_outcome(r) == gain_map_in(file@, tmap, body@, inputs@),
{
    if inputs.len() != 2 {
        return Ok(None);
    }
    match GainMapMetadata::parse_tmap_body(body) {
        Err(_) => Ok(None),
        Ok(metadata) => {
            let node: ImageNode = build_graph(file, inputs[1])?;
            Ok(Some(GainMapSource { tmap_item_id: tmap, metadata, node }))
        },
    }
}

/// Locate the gain map of `node`: the node itself when it
/// is a `tmap`, else a `tmap` item whose first `dimg` input is the
/// node. The `tmap` body is the ISO 21496-1 C.2 metadata; its second
/// input is the gain-map image. An unparsable / unsupported payload
/// yields `None` (C.2.3: fall back to the base image).
pub fn find_gain_map(file: &HeifFile, node: &ImageNode) -> (r: Result<Option<GainMapSource>>)
    ensures
        source_outcome(r) == gain_map_of(file@, node@),
{
    let meta: &Meta = file.meta()?;
    match &node.kind {
        ImageKind::ToneMap(body) => gain_map_source(
            file,
            node.item.id,
            body.as_slice(),
            meta.derivation_inputs(node.item.id),
        ),
        _ => match find_tone_map(meta, node.item.id) {
            None => Ok(None),
            Some(t) => {
                let body: Vec<u8> = file.item_data_owned(t)?;
                gain_map_source(file, t, body.as_slice(), meta.derivation_inputs(t))
            },
        },
    }
}

/// The model of colour information that may be absent.
pub open spec fn colr_model(c: Option<Colr>) -> Option<ColrModel> {
    match c {
        Some(x) => Some(x@),
        None => None,
    }
}

fn copy_nclx(p: &ItemProperties) -> (r: Option<Colr>)
    ensures
        colr_model(r) == first_nclx(p@.colrs()),
{
    match p.nclx() {
        Some(c) => Some(c.clone()),
        None => None,
    }
}

impl GainMapSource {
    /// The gain map with its decoded output image.
    pub fn attach(self, file: &HeifFile, frame: HeifFrame) -> (r: Result<GainMapAttachment>)
        ensures
            match file@.meta {
                None => r matches Err(e) && e.kind() == ErrorKind::Invalid,
                Some(m) => match item_properties(m, self.tmap_item_id) {
                    Err(k) => r matches Err(e) && e.kind() == k,
                    Ok(p) => {
                        &&& r matches Ok(a)
                        &&& a.tmap_item_id == self.tmap_item_id
                        &&& a.gain_map_item_id == self.node.item.id
                        &&& a.metadata == self.metadata
                        &&& a.frame == frame
                        &&& colr_model(a.colr) == first_nclx(self.node@.properties.colrs())
                        &&& colr_model(a.alternate_colr) == first_nclx(p.colrs())
                    },
                },
            },
    {
        let meta: &Meta = file.meta()?;
        let props: ItemProperties = ItemProperties::resolve(meta, self.tmap_item_id)?;
        Ok(
            GainMapAttachment {
                tmap_item_id: self.tmap_item_id,
                gain_map_item_id: self.node.item.id,
                colr: copy_nclx(&self.node.properties),
                alternate_colr: copy_nclx(&props),
                metadata: self.metadata,
                frame,
            },
        )
    }
}

/// The first Exif payload and the first XMP packet among the metadata items
/// from `i` on, after those found before.
pub open spec fn metadata_from(
    f: FileModel,
    items: Seq<ItemInfoModel>,
    i: int,
    exif: Option<Seq<u8>>,
    xmp: Option<Seq<char>>,
) -> Outcome<(Option<Seq<u8>>, Option<Seq<char>>)>
    decreases items.len() - i,
{
    if 0 <= i < items.len() {
        let m = items[i];
        if m.item_type == ITEM_TYPE_EXIF && exif is None {
            match f.item_bytes(m.id) {
                Err(e) => Err(e),
                Ok(b) => match exif_of(b) {
                    Err(e) => Err(e),
                    Ok(x) => metadata_from(f, items, i + 1, Some(x), xmp),
                },
            }
        } else if m.xmp() && xmp is None {
            match f.item_bytes(m.id) {
                Err(e) => Err(e),
                Ok(b) => metadata_from(f, items, i + 1, exif, Some(utf8_lossy(b))),
            }
        } else {
            metadata_from(f, items, i + 1, exif, xmp)
        }
    } else {
        Ok((exif, xmp))
    }
}

/// The node whose colour information describes the decoded image: a `tmap`
/// decoded to its base rendition carries that of the base, the applied
/// rendition that of the `tmap` (§6.6.2.4.1).
pub open spec fn colour_node(n: NodeModel, tone_map: ToneMapOutput) -> NodeModel {
    if n.kind is ToneMap && tone_map == ToneMapOutput::Base && n.inputs.len() > 0 {
        n.inputs[0]
    } else {
        n
    }
}

/// The bytes that may be absent.
pub open spec fn bytes_model(b: Option<Vec<u8>>) -> Option<Seq<u8>> {
    match b {
        Some(x) => Some(x@),
        None => None,
    }
}

/// The text that may be absent.
pub open spec fn text_model(t: Option<String>) -> Option<Seq<char>> {
    match t {
        Some(x) => Some(x@),
        None => None,
    }
}

fn read_metadata(file: &HeifFile, items: &Vec<ItemInfo>) -> (r: Result<
    (Option<Vec<u8>>, Option<String>),
>)
    ensures
        match r {
            Ok(m) => metadata_from(file@, items.deep_view(), 0, None, None) == Ok::<
                (Option<Seq<u8>>, Option<Seq<char>>),
                ErrorKind,
            >((bytes_model(m.0), text_model(m.1))),
            Err(e) => metadata_from(file@, items.deep_view(), 0, None, None) == Err::<
                (Option<Seq<u8>>, Option<Seq<char>>),
                ErrorKind,
            >(e.kind()),
        },
{
    let ghost all = items.deep_view();
    let ghost goal = metadata_from(file@, all, 0, None, None);
    let mut exif: Option<Vec<u8>> = None;
    let mut xmp: Option<String> = None;
    for i in 0..items.len()
        invariant
            all == items.deep_view(),
            goal == metadata_from(file@, all, 0, None, None),
            goal == metadata_from(file@, all, i as int, bytes_model(exif), text_model(xmp)),
    {
        let m: &ItemInfo = &items[i];
        assert(all[i as int] == m@);
        if fourcc_eq(&m.item_type, &ITEM_TYPE_EXIF) && exif.is_none() {
            let data: Cow = file.item_data(m.id)?;
            exif = Some(exif_payload(data.as_ref())?);
        } else if m.is_xmp() && xmp.is_none() {
            let data: Cow = file.item_data(m.id)?;
            xmp = Some(lossy_text(data.as_ref()));
        }
    }
    Ok((exif, xmp))
}

/// The item ids of a list of nodes.
pub open spec fn ids_of(v: Seq<NodeModel>) -> Seq<u32> {
    Seq::new(v.len(), |i: int| v[i].item.id)
}

/// The decoded image of a node, from its output image, that of its depth map
/// and its gain map.
pub fn describe(
    file: &HeifFile,
    node: &ImageNode,
    tone_map: ToneMapOutput,
    frame: HeifFrame,
    depth: Option<HeifFrame>,
    gain_map: Option<GainMapAttachment>,
) -> (r: Result<DecodedImage>)
    ensures
        match metadata_from(file@, node@.metadata, 0, None, None) {
            Err(k) => r matches Err(e) && e.kind() == k,
            Ok(m) => {
                let colours = colour_node(node@, tone_map).properties.colrs();
                &&& r matches Ok(d)
                &&& d.item_id == node.item.id
                &&& d.frame == frame
                &&& d.depth == depth
                &&& d.gain_map == gain_map
                &&& d.premultiplied_alpha == (node.premultiplied_alpha && node.alpha is Some)
                &&& d.nclx@ == (match first_nclx(colours) {
                    Some(c) => c,
                    None => ColrModel::miaf_default(),
                })
                &&& d.nclx_explicit == (first_nclx(colours) is Some)
                &&& bytes_model(d.icc_profile) == first_icc(colours)
                &&& bytes_model(d.exif) == m.0
                &&& text_model(d.xmp) == m.1
                &&& d.thumbnail_ids@ == ids_of(node@.thumbnails)
                &&& d.properties@ == node@.properties
            },
        },
{
    let colours: &ImageNode = match &node.kind {
        ImageKind::ToneMap(_) => if tone_map == ToneMapOutput::Base && node.inputs.len() > 0 {
            assert(node@.inputs[0] == node.inputs@[0]@);
            &node.inputs[0]
        } else {
            node
        },
        _ => node,
    };
    assert(colours@ == colour_node(node@, tone_map));
    let (nclx, nclx_explicit): (Colr, bool) = match colours.properties.nclx() {
        Some(c) => (c.clone(), true),
        None => (Colr::miaf_default(), false),
    };
    let icc_profile: Option<Vec<u8>> = match colours.properties.icc_profile() {
        Some(b) => Some(copy_of(b)),
        None => None,
    };
    let (exif, xmp): (Option<Vec<u8>>, Option<String>) = read_metadata(file, &node.metadata)?;
    let mut thumbnail_ids: Vec<u32> = Vec::new();
    for i in 0..node.thumbnails.len()
        invariant
            thumbnail_ids@ == ids_of(node@.thumbnails).take(i as int),
    {
        assert(node@.thumbnails[i as int] == node.thumbnails@[i as int]@);
        thumbnail_ids.push(node.thumbnails[i].item.id);
        assert(thumbnail_ids@ =~= ids_of(node@.thumbnails).take(i + 1));
    }
    assert(thumbnail_ids@ =~= ids_of(node@.thumbnails));
    Ok(
        DecodedImage {
            item_id: node.item.id,
            frame,
            premultiplied_alpha: node.premultiplied_alpha && node.alpha.is_some(),
            depth,
            nclx,
            nclx_explicit,
            icc_profile,
            exif,
            xmp,
            thumbnail_ids,
            properties: node.properties.clone(),
            gain_map,
        },
    )
}

impl DecodedImage {
    /// Output width in pixels.
    pub fn width(&self) -> (r: u32)
        ensures
            r == self.frame.width,
    {
        self.frame.width
    }

    /// Output height in pixels.
    pub fn height(&self) -> (r: u32)
        ensures
            r == self.frame.height,
    {
        self.frame.height
    }
}

} // verus!
