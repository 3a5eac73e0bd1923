//! The items of a still image file: what each carries, and the order in which
//! they are written.
use crate::boxes::FourCc;
use crate::bytes::copy_of;
use crate::derived::GridDescriptor;
use crate::encode::annexb::{hevc_item_from_annex_b, hevc_item_in};
use crate::encode::still::{gain_map_colr, stored_colr};
use crate::encode::{
    all_essential, aperture, channels, coded_props, colour_props, described, hevc_signal_options, marked,
    option_texts, picture_props, pixi_of, profile_bytes, push_aperture, push_colour_props,
    push_pair, push_picture_props, push_transforms, signal_of, text_of, CodedPicture, CodedPictureModel, EncodeOptions, GainMapSpec,
    effort_of, StillCodec,
};
use crate::error::{view_outcome, Outcome, Result};
use crate::gainmap::{GainMapMetadata, GainMapModel};
use crate::image::Chroma;
use crate::meta::ITEM_TYPE_HVC1;
use crate::props::{
    AuxC, AuxCModel, Colr, ColrModel, Property, PropertyModel, AUX_URN_ALPHA, AUX_URN_ALPHA_HEVC,
};
use crate::text::{decimal, decimal_chars};
use vstd::prelude::*;

verus! {

/// An item to write: its type, its data and its properties with their essential
/// flags.
#[derive(Debug)]
pub struct ItemSpec {
    /// Item type.
    pub item_type: FourCc,
    /// Item data.
    pub data: Vec<u8>,
    /// Properties, in association order.
    pub props: Vec<(Property, bool)>,
}

/// Model of [`ItemSpec`].
#[verifier::ext_equal]
pub struct ItemModel {
    /// Item type.
    pub item_type: FourCc,
    /// Item data.
    pub data: Seq<u8>,
    /// Properties, in association order.
    pub props: Seq<(PropertyModel, bool)>,
}

impl View for ItemSpec {
    type V = ItemModel;

    open spec fn view(&self) -> ItemModel {
        ItemModel { item_type: self.item_type, data: self.data@, props: marked(self.props@) }
    }
}

/// The item of a coded picture with the given properties.
pub open spec fn item_with(pic: CodedPictureModel, props: Seq<(PropertyModel, bool)>) -> ItemModel {
    ItemModel { item_type: pic.item_type, data: pic.data, props }
}

/// The profile of the options.
pub open spec fn icc_of(opts: EncodeOptions) -> Option<Seq<u8>> {
    match opts.icc_profile {
        Some(b) => Some(b@),
        None => None,
    }
}

fn icc_slice(opts: &EncodeOptions) -> (r: Option<&[u8]>)
    ensures
        profile_bytes(r) == icc_of(*opts),
{
    match &opts.icc_profile {
        Some(b) => Some(b.as_slice()),
        None => None,
    }
}

/// The master as one item: described with its colour, cut to its visible size,
/// then transformed.
pub open spec fn master_item_of(pic: CodedPictureModel, size: (u32, u32), opts: EncodeOptions) -> ItemModel {
    item_with(
        pic,
        described(pic, opts.colr@, icc_of(opts)) + aperture(pic, size.0, size.1) + all_essential(
            opts.transforms@,
        ),
    )
}

/// The item of the master.
pub fn master_item(pic: &CodedPicture, size: (u32, u32), opts: &EncodeOptions) -> (r: ItemSpec)
    requires
        pic.wf(),
        size.0 <= i32::MAX,
        size.1 <= i32::MAX,
    ensures
        r@ == master_item_of(pic@, size, *opts),
{
    let mut props: Vec<(Property, bool)> = coded_props(pic, &opts.colr, icc_slice(opts));
    push_aperture(&mut props, pic, size.0, size.1);
    push_transforms(&mut props, opts);
    let r: ItemSpec = ItemSpec {
        item_type: pic.item_type,
        data: copy_of(pic.data.as_slice()),
        props,
    };
    assert(r@ =~= master_item_of(pic@, size, *opts));
    r
}

/// A tile of a grid: described with its colour, without a profile.
pub open spec fn tile_item_of(pic: CodedPictureModel, opts: EncodeOptions) -> ItemModel {
    item_with(pic, described(pic, opts.colr@, None))
}

/// The item of a tile.
pub fn tile_item(pic: &CodedPicture, opts: &EncodeOptions) -> (r: ItemSpec)
    ensures
        r@ == tile_item_of(pic@, *opts),
{
    ItemSpec {
        item_type: pic.item_type,
        data: copy_of(pic.data.as_slice()),
        props: coded_props(pic, &opts.colr, None),
    }
}

/// The properties of the grid: its colour, then its transformations.
pub open spec fn grid_props_of(opts: EncodeOptions) -> Seq<(PropertyModel, bool)> {
    colour_props(opts.colr@, icc_of(opts)) + all_essential(opts.transforms@)
}

/// The properties of the grid item.
pub fn grid_props(opts: &EncodeOptions) -> (r: Vec<(Property, bool)>)
    ensures
        marked(r@) == grid_props_of(*opts),
{
    let mut props: Vec<(Property, bool)> = Vec::new();
    assert(marked(props@) =~= Seq::empty());
    push_colour_props(&mut props, &opts.colr, icc_slice(opts));
    push_transforms(&mut props, opts);
    assert(marked(props@) =~= grid_props_of(*opts));
    props
}

/// The `auxC` of an alpha auxiliary: the codec-specific URN for HEVC (HEIF
/// §7.5.3.2 / Annex B.2.3.2), the codec-independent CICP URN for AV1
/// (§7.5.3.1).
pub open spec fn alpha_mark(codec: StillCodec) -> PropertyModel {
    PropertyModel::AuxC(
        AuxCModel {
            aux_type: match codec {
                StillCodec::Hevc => AUX_URN_ALPHA_HEVC@,
                StillCodec::Av1 => AUX_URN_ALPHA@,
            },
            aux_subtype: Seq::empty(),
        },
    )
}

/// The alpha auxiliary: no colour information (the plane is an opacity, not a
/// colour), a single-channel `pixi` and an essential `auxC`.
pub open spec fn alpha_item_of(pic: CodedPictureModel, size: (u32, u32), opts: EncodeOptions) -> ItemModel {
    item_with(
        pic,
        picture_props(pic, 1).push((alpha_mark(opts.codec), true)) + aperture(pic, size.0, size.1)
            + all_essential(opts.transforms@),
    )
}

/// The item of the alpha auxiliary.
pub fn alpha_item(pic: &CodedPicture, size: (u32, u32), opts: &EncodeOptions) -> (r: ItemSpec)
    requires
        pic.wf(),
        size.0 <= i32::MAX,
        size.1 <= i32::MAX,
    ensures
        r@ == alpha_item_of(pic@, size, *opts),
{
    let mut props: Vec<(Property, bool)> = Vec::new();
    assert(marked(props@) =~= Seq::empty());
    push_picture_props(&mut props, pic, 1);
    assert(marked(props@) =~= picture_props(pic@, 1));
    let urn: &str = match opts.codec {
        StillCodec::Hevc => AUX_URN_ALPHA_HEVC,
        StillCodec::Av1 => AUX_URN_ALPHA,
    };
    let a: AuxC = AuxC { aux_type: text_of(urn), aux_subtype: Vec::new() };
    assert(a@.aux_subtype =~= Seq::empty());
    props.push((Property::AuxC(a), true));
    assert(marked(props@) =~= picture_props(pic@, 1).push((alpha_mark(opts.codec), true)));
    push_aperture(&mut props, pic, size.0, size.1);
    push_transforms(&mut props, opts);
    let r: ItemSpec = ItemSpec {
        item_type: pic.item_type,
        data: copy_of(pic.data.as_slice()),
        props,
    };
    assert(r@ =~= alpha_item_of(pic@, size, *opts));
    r
}

/// The thumbnail: described with its colour, without a profile, cut to its
/// visible size, then transformed.
pub open spec fn thumbnail_item_of(
    pic: CodedPictureModel,
    size: (u32, u32),
    opts: EncodeOptions,
) -> ItemModel {
    item_with(
        pic,
        described(pic, opts.colr@, None) + aperture(pic, size.0, size.1) + all_essential(
            opts.transforms@,
        ),
    )
}

/// The item of the thumbnail.
pub fn thumbnail_item(pic: &CodedPicture, size: (u32, u32), opts: &EncodeOptions) -> (r: ItemSpec)
    requires
        pic.wf(),
        size.0 <= i32::MAX,
        size.1 <= i32::MAX,
    ensures
        r@ == thumbnail_item_of(pic@, size, *opts),
{
    let mut props: Vec<(Property, bool)> = coded_props(pic, &opts.colr, None);
    push_aperture(&mut props, pic, size.0, size.1);
    push_transforms(&mut props, opts);
    let r: ItemSpec = ItemSpec {
        item_type: pic.item_type,
        data: copy_of(pic.data.as_slice()),
        props,
    };
    assert(r@ =~= thumbnail_item_of(pic@, size, *opts));
    r
}

/// How many channels of information a coded gain map has: one when a monochrome
/// map rides the luma of a colour picture.
pub open spec fn gain_map_channels(pic: CodedPictureModel, gm: GainMapSpec) -> int {
    if gm.frame.format.chroma == Chroma::Mono {
        1
    } else {
        pic.layout.chroma.planes()
    }
}

/// The gain map: described with its own colour information, cut to its visible
/// size.
pub open spec fn gain_map_item_of(pic: CodedPictureModel, size: (u32, u32), gm: GainMapSpec) -> ItemModel {
    item_with(
        pic,
        picture_props(pic, gain_map_channels(pic, gm)) + colour_props(gain_map_colr(gm), None)
            + aperture(pic, size.0, size.1),
    )
}

/// The item of the gain map.
pub fn gain_map_item(pic: &CodedPicture, size: (u32, u32), gm: &GainMapSpec) -> (r: ItemSpec)
    requires
        pic.wf(),
        size.0 <= i32::MAX,
        size.1 <= i32::MAX,
    ensures
        r@ == gain_map_item_of(pic@, size, *gm),
{
    let mut props: Vec<(Property, bool)> = Vec::new();
    assert(marked(props@) =~= Seq::empty());
    let n: usize = if gm.frame.format.chroma == Chroma::Mono {
        1
    } else {
        pic.layout.chroma.colour_planes()
    };
    push_picture_props(&mut props, pic, n);
    push_colour_props(&mut props, &stored_colr(gm), None);
    push_aperture(&mut props, pic, size.0, size.1);
    let r: ItemSpec = ItemSpec {
        item_type: pic.item_type,
        data: copy_of(pic.data.as_slice()),
        props,
    };
    assert(r@ =~= gain_map_item_of(pic@, size, *gm));
    r
}

/// The depth written for the alternate rendition: one of a picture.
pub open spec fn alternate_depth(d: u8) -> u8 {
    if d < 8 {
        8
    } else if d > 16 {
        16
    } else {
        d
    }
}

/// The descriptive properties of the `tmap` item: the channels of the applied
/// rendition, and its light levels when known.
pub open spec fn tone_map_props_of(gm: GainMapSpec, chroma: Chroma) -> Seq<(PropertyModel, bool)> {
    let first = seq![(channels(alternate_depth(gm.alternate_bit_depth), chroma.planes()), false)];
    match gm.alternate_clli {
        Some(c) => first.push((PropertyModel::Clli(c), false)),
        None => first,
    }
}

/// The descriptive properties of the `tmap` item over a master of the given
/// chroma.
pub fn tone_map_props(gm: &GainMapSpec, chroma: Chroma) -> (r: Vec<(Property, bool)>)
    ensures
        marked(r@) == tone_map_props_of(*gm, chroma),
{
    let d: u8 = if gm.alternate_bit_depth < 8 {
        8
    } else if gm.alternate_bit_depth > 16 {
        16
    } else {
        gm.alternate_bit_depth
    };
    let mut props: Vec<(Property, bool)> = Vec::new();
    let bits: Property = pixi_of(d, chroma.colour_planes());
    props.push((bits, false));
    if let Some(c) = gm.alternate_clli {
        props.push((Property::Clli(c), false));
    }
    assert(marked(props@) =~= tone_map_props_of(*gm, chroma));
    props
}

/// The codec options that give the parameter sets of an item their own ids.
pub open spec fn set_options(id: u8) -> Seq<(Seq<char>, Seq<char>)> {
    if id == 0 {
        Seq::empty()
    } else {
        let n = decimal_chars(id as nat);
        seq![("vpsid"@, n), ("spsid"@, n), ("ppsid"@, n)]
    }
}

/// The options of the HEVC encoder for an item with the given colour
/// information and parameter set ids.
pub open spec fn hevc_options_of(colr: ColrModel, id: u8, opts: EncodeOptions) -> Seq<
    (Seq<char>, Seq<char>),
> {
    seq![("mode"@, opts.hevc_mode@), ("qp"@, decimal_chars(opts.qp as nat)), ("still"@, "1"@)]
        + signal_of(colr) + effort_of(opts) + set_options(id)
}

/// The options of the HEVC encoder for an item: the coding mode and the
/// quantiser, the colour information of the item, the effort, and the ids of
/// its parameter sets.
pub fn hevc_options(colr: &Colr, parameter_sets: u8, opts: &EncodeOptions) -> (r: Vec<
    (String, String),
>)
    ensures
        option_texts(r@) == hevc_options_of(colr@, parameter_sets, *opts),
{
    let mut v: Vec<(String, String)> = Vec::new();
    assert(option_texts(v@) =~= Seq::empty());
    let qp: String = decimal(opts.qp as u64);
    push_pair(&mut v, "mode", opts.hevc_mode.as_str());
    push_pair(&mut v, "qp", qp.as_str());
    let ghost head = option_texts(v@);
    let mut signal: Vec<(String, String)> = hevc_signal_options(colr, opts);
    let ghost tail = option_texts(signal@);
    v.append(&mut signal);
    assert(option_texts(v@) =~= head + tail);
    if parameter_sets != 0 {
        let n: String = decimal(parameter_sets as u64);
        push_pair(&mut v, "vpsid", n.as_str());
        push_pair(&mut v, "spsid", n.as_str());
        push_pair(&mut v, "ppsid", n.as_str());
    }
    assert(option_texts(v@) =~= hevc_options_of(colr@, parameter_sets, *opts));
    v
}

/// The item of an HEVC picture, from the access unit the encoder made.
pub open spec fn hevc_picture_of(stream: Seq<u8>) -> Outcome<CodedPictureModel> {
    match hevc_item_in(stream) {
        Err(e) => Err(e),
        Ok(i) => Ok(
            CodedPictureModel {
                item_type: ITEM_TYPE_HVC1,
                data: i.data,
                config: PropertyModel::HvcC(i.config),
                size: i.size,
                layout: i.layout,
            },
        ),
    }
}

/// The coded picture of an Annex B access unit.
pub fn hevc_picture(annex_b: &[u8]) -> (r: Result<CodedPicture>)
    ensures
        view_outcome(r) == hevc_picture_of(annex_b@),
{
    let (cfg, data, w, h, layout) = hevc_item_from_annex_b(annex_b)?;
    Ok(
        CodedPicture {
            item_type: ITEM_TYPE_HVC1,
            data,
            config: Property::HvcC(cfg),
            coded_width: w,
            coded_height: h,
            layout,
        },
    )
}

/// A step of writing a file, in the order of [`still_steps`].
#[derive(Debug)]
pub enum Step<'a> {
    /// Add a hidden coded item, a tile of the grid that follows.
    Tile(ItemSpec),
    /// Add the master: a grid over the tiles added before.
    Grid(GridDescriptor, Vec<(Property, bool)>),
    /// Add the master: a coded item.
    Master(ItemSpec),
    /// Add the alpha auxiliary of the master, not pre-multiplied.
    Alpha(ItemSpec),
    /// Add a thumbnail of the master.
    Thumbnail(ItemSpec),
    /// Attach an Exif payload to the master.
    Exif(&'a [u8]),
    /// Attach an XMP packet to the master.
    Xmp(&'a str),
    /// Add the gain map, a hidden coded item.
    GainMap(ItemSpec),
    /// Add a `tmap` item over the master and the gain map.
    ToneMap(&'a GainMapMetadata, &'a Colr, Vec<(Property, bool)>),
    /// Make the master the primary item.
    Primary,
}

/// Model of [`Step`].
pub enum StepModel {
    /// A tile.
    Tile(ItemModel),
    /// The master as a grid.
    Grid(GridDescriptor, Seq<(PropertyModel, bool)>),
    /// The master as a coded item.
    Master(ItemModel),
    /// The alpha auxiliary.
    Alpha(ItemModel),
    /// A thumbnail.
    Thumbnail(ItemModel),
    /// An Exif payload.
    Exif(Seq<u8>),
    /// An XMP packet.
    Xmp(Seq<char>),
    /// The gain map.
    GainMap(ItemModel),
    /// The `tmap` item.
    ToneMap(GainMapModel, ColrModel, Seq<(PropertyModel, bool)>),
    /// The primary item.
    Primary,
}

impl<'a> View for Step<'a> {
    type V = StepModel;

    open spec fn view(&self) -> StepModel {
        match self {
            Step::Tile(i) => StepModel::Tile(i@),
            Step::Grid(g, p) => StepModel::Grid(*g, marked(p@)),
            Step::Master(i) => StepModel::Master(i@),
            Step::Alpha(i) => StepModel::Alpha(i@),
            Step::Thumbnail(i) => StepModel::Thumbnail(i@),
            Step::Exif(b) => StepModel::Exif(b@),
            Step::Xmp(t) => StepModel::Xmp(t@),
            Step::GainMap(i) => StepModel::GainMap(i@),
            Step::ToneMap(m, c, p) => StepModel::ToneMap(m@, c@, marked(p@)),
            Step::Primary => StepModel::Primary,
        }
    }
}

/// The models of a list of steps.
pub open spec fn step_models(v: Seq<Step>) -> Seq<StepModel> {
    Seq::new(v.len(), |i: int| v[i]@)
}

/// A coded picture with the size it is shown at.
#[derive(Debug)]
pub struct Shown {
    /// The coded picture.
    pub picture: CodedPicture,
    /// Visible width and height.
    pub size: (u32, u32),
}

/// Model of [`Shown`].
pub struct ShownModel {
    /// The coded picture.
    pub picture: CodedPictureModel,
    /// Visible width and height.
    pub size: (u32, u32),
}

impl View for Shown {
    type V = ShownModel;

    open spec fn view(&self) -> ShownModel {
        ShownModel { picture: self.picture@, size: self.size }
    }
}

impl Shown {
    /// The sizes fit the offsets of a clean aperture.
    pub open spec fn wf(self) -> bool {
        self.picture.wf() && self.size.0 <= i32::MAX && self.size.1 <= i32::MAX
    }
}

/// The model of a coded picture that may be absent.
pub open spec fn shown_model(s: Option<Shown>) -> Option<ShownModel> {
    match s {
        Some(x) => Some(x@),
        None => None,
    }
}

/// The coded master.
#[derive(Debug)]
pub enum CodedMaster {
    /// One item.
    Single(Shown),
    /// A grid and its tiles, in order.
    Grid(GridDescriptor, Vec<CodedPicture>),
}

/// Model of [`CodedMaster`].
pub enum CodedMasterModel {
    /// One item.
    Single(ShownModel),
    /// A grid and its tiles, in order.
    Grid(GridDescriptor, Seq<CodedPictureModel>),
}

/// The models of a list of coded pictures.
pub open spec fn picture_models(v: Seq<CodedPicture>) -> Seq<CodedPictureModel> {
    Seq::new(v.len(), |i: int| v[i]@)
}

impl View for CodedMaster {
    type V = CodedMasterModel;

    open spec fn view(&self) -> CodedMasterModel {
        match self {
            CodedMaster::Single(s) => CodedMasterModel::Single(s@),
            CodedMaster::Grid(g, v) => CodedMasterModel::Grid(*g, picture_models(v@)),
        }
    }
}

/// The steps of the tiles from `i` on.
pub open spec fn tile_steps(v: Seq<CodedPictureModel>, i: int, opts: EncodeOptions) -> Seq<StepModel>
    decreases v.len() - i,
{
    if 0 <= i < v.len() {
        seq![StepModel::Tile(tile_item_of(v[i], opts))] + tile_steps(v, i + 1, opts)
    } else {
        Seq::empty()
    }
}

/// The steps of the master: one item, or the tiles and their grid.
pub open spec fn master_steps(m: CodedMasterModel, opts: EncodeOptions) -> Seq<StepModel> {
    match m {
        CodedMasterModel::Single(s) => seq![StepModel::Master(master_item_of(s.picture, s.size, opts))],
        CodedMasterModel::Grid(g, v) => tile_steps(v, 0, opts).push(
            StepModel::Grid(g, grid_props_of(opts)),
        ),
    }
}

/// The steps of what hangs on the master: alpha, thumbnail, metadata.
pub open spec fn attached_steps(
    alpha: Option<ShownModel>,
    thumbnail: Option<ShownModel>,
    opts: EncodeOptions,
) -> Seq<StepModel> {
    let a = match alpha {
        Some(s) => seq![StepModel::Alpha(alpha_item_of(s.picture, s.size, opts))],
        None => Seq::empty(),
    };
    let t = match thumbnail {
        Some(s) => a.push(StepModel::Thumbnail(thumbnail_item_of(s.picture, s.size, opts))),
        None => a,
    };
    let e = match opts.exif {
        Some(b) => t.push(StepModel::Exif(b@)),
        None => t,
    };
    match opts.xmp {
        Some(x) => e.push(StepModel::Xmp(x@)),
        None => e,
    }
}

/// The steps of the gain map: the coded map, then the `tmap` over the master
/// and it.
pub open spec fn gain_map_steps(gain: Option<ShownModel>, chroma: Chroma, opts: EncodeOptions) -> Seq<
    StepModel,
> {
    match (gain, opts.gain_map) {
        (Some(s), Some(gm)) => seq![
            StepModel::GainMap(gain_map_item_of(s.picture, s.size, gm)),
            StepModel::ToneMap(gm.metadata@, gm.alternate_colr@, tone_map_props_of(gm, chroma)),
        ],
        _ => Seq::empty(),
    }
}

fn push_step<'a>(v: &mut Vec<Step<'a>>, s: Step<'a>)
    ensures
        step_models(final(v)@) == step_models(old(v)@).push(s@),
{
    let ghost before = step_models(v@);
    v.push(s);
    assert(step_models(v@) =~= before.push(s@));
}

fn push_tiles<'a>(v: &mut Vec<Step<'a>>, tiles: &Vec<CodedPicture>, opts: &'a EncodeOptions)
    ensures
        step_models(final(v)@) == step_models(old(v)@) + tile_steps(picture_models(tiles@), 0, *opts),
{
    let ghost all = picture_models(tiles@);
    let ghost goal = step_models(v@) + tile_steps(all, 0, *opts);
    for i in 0..tiles.len()
        invariant
            all == picture_models(tiles@),
            goal == step_models(v@) + tile_steps(all, i as int, *opts),
    {
        let ghost before = step_models(v@);
        assert(all[i as int] == tiles@[i as int]@);
        let t: ItemSpec = tile_item(&tiles[i], opts);
        push_step(v, Step::Tile(t));
        assert(before.push(StepModel::Tile(t@)) + tile_steps(all, i + 1, *opts) =~= before
            + tile_steps(all, i as int, *opts));
    }
    assert(step_models(v@) =~= step_models(v@) + tile_steps(all, all.len() as int, *opts));
}

fn push_master<'a>(v: &mut Vec<Step<'a>>, master: &CodedMaster, opts: &'a EncodeOptions)
    requires
        master matches CodedMaster::Single(s) ==> s.wf(),
    ensures
        step_models(final(v)@) == step_models(old(v)@) + master_steps(master@, *opts),
{
    let ghost start = step_models(v@);
    match master {
        CodedMaster::Single(s) => {
            push_step(v, Step::Master(master_item(&s.picture, s.size, opts)));
        },
        CodedMaster::Grid(g, tiles) => {
            push_tiles(v, tiles, opts);
            push_step(v, Step::Grid(*g, grid_props(opts)));
        },
    }
    assert(step_models(v@) =~= start + master_steps(master@, *opts));
}

fn push_attached<'a>(
    v: &mut Vec<Step<'a>>,
    alpha: &Option<Shown>,
    thumbnail: &Option<Shown>,
    opts: &'a EncodeOptions,
)
    requires
        alpha matches Some(s) ==> s.wf(),
        thumbnail matches Some(s) ==> s.wf(),
    ensures
        step_models(final(v)@) == step_models(old(v)@) + attached_steps(shown_model(*alpha), shown_model(*thumbnail), *opts),
{
    let ghost start = step_models(v@);
    if let Some(s) = alpha {
        push_step(v, Step::Alpha(alpha_item(&s.picture, s.size, opts)));
    }
    if let Some(s) = thumbnail {
        push_step(v, Step::Thumbnail(thumbnail_item(&s.picture, s.size, opts)));
    }
    if let Some(b) = &opts.exif {
        push_step(v, Step::Exif(b.as_slice()));
    }
    if let Some(x) = &opts.xmp {
        push_step(v, Step::Xmp(x.as_str()));
    }
    assert(step_models(v@) =~= start + attached_steps(shown_model(*alpha), shown_model(*thumbnail), *opts));
}

fn push_gain_map<'a>(
    v: &mut Vec<Step<'a>>,
    gain: &Option<Shown>,
    chroma: Chroma,
    opts: &'a EncodeOptions,
)
    requires
        gain matches Some(s) ==> s.wf(),
    ensures
        step_models(final(v)@) == step_models(old(v)@) + gain_map_steps(shown_model(*gain), chroma, *opts),
{
    let ghost start = step_models(v@);
    if let Some(s) = gain {
        if let Some(gm) = &opts.gain_map {
            push_step(v, Step::GainMap(gain_map_item(&s.picture, s.size, gm)));
            push_step(
                v,
                Step::ToneMap(&gm.metadata, &gm.alternate_colr, tone_map_props(gm, chroma)),
            );
        }
    }
    assert(step_models(v@) =~= start + gain_map_steps(shown_model(*gain), chroma, *opts));
}

/// The steps that write a file: the master first, then what hangs on it, the
/// gain map with its `tmap`, and last the choice of the primary item. The base
/// stays the primary, so readers without tone-map support show it.
pub fn still_steps<'a>(
    master: &CodedMaster,
    alpha: &Option<Shown>,
    thumbnail: &Option<Shown>,
    gain: &Option<Shown>,
    chroma: Chroma,
    opts: &'a EncodeOptions,
) -> (r: Vec<Step<'a>>)
    requires
        master matches CodedMaster::Single(s) ==> s.wf(),
        alpha matches Some(s) ==> s.wf(),
        thumbnail matches Some(s) ==> s.wf(),
        gain matches Some(s) ==> s.wf(),
    ensures
        step_models(r@) == master_steps(master@, *opts) + attached_steps(shown_model(*alpha), shown_model(*thumbnail), *opts)
            + gain_map_steps(shown_model(*gain), chroma, *opts) + seq![StepModel::Primary],
{
    let mut v: Vec<Step<'a>> = Vec::new();
    push_master(&mut v, master, opts);
    assert(step_models(v@) =~= master_steps(master@, *opts));
    push_attached(&mut v, alpha, thumbnail, opts);
    push_gain_map(&mut v, gain, chroma, opts);
    let ghost before = step_models(v@);
    push_step(&mut v, Step::Primary);
    assert(before.push(StepModel::Primary) =~= before + seq![StepModel::Primary]);
    v
}

} // verus!
