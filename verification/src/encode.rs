//! Still-image encoding: pixels → HEVC / AV1 items → the items of a
//! MIAF-conformant file.
//!
//! HEVC access units come with the parameter sets in band ([`annexb`]): the NAL
//! units are split, VPS / SPS / PPS lifted into the `hvcC` record (profile /
//! tier / level from the SPS profile-tier-level, chroma and bit depth from the
//! SPS) and the VCL NAL units re-framed with 4-byte length prefixes (HEIF
//! Annex B.2.2). AV1 items come from the still encoder of `oxideav-av1`
//! ([`av1`]): a temporal unit and its `av1C` record. [`still`] decides which
//! pictures a file is made of and which properties their items carry.
use crate::boxes::FourCc;
use crate::gainmap::GainMapMetadata;
use crate::image::{HeifFrame, HeifPixelFormat};
use crate::props::{
    Clap, Clli, Colr, ColrModel, CropRect, Ispe, Pixi, PixiModel, Property, PropertyModel,
};
use crate::text::decimal;
use vstd::prelude::*;

pub mod annexb;
pub mod assemble;
pub mod av1;
pub mod avc;
pub mod coded_laws;
pub mod convert;
pub mod hevc;
pub mod item_laws;
pub mod items;
pub mod options;
pub mod reduce;
pub mod still;
pub mod still_laws;
pub mod tiles;

pub use annexb::{hevc_item_from_annex_b, profile_compat_flags};
pub use assemble::encode_still;
pub use av1::encode_av1_picture;
pub use avc::avc_item_from_annex_b;
pub use convert::{input_frame, packed_to_planar, pad_frame, to_yuv420_8};
pub use hevc::{encode_hevc_picture, encode_hevc_picture_with};
pub use options::{HeifEncoderOptions, ENCODER_PIXEL_FORMATS};

verus! {

/// Which codec produces the coded items.
#[derive(Clone, Copy, Debug, PartialEq, Eq, Structural)]
pub enum StillCodec {
    /// HEVC (`hvc1` items, `heic` brand).
    Hevc,
    /// AV1 (`av01` items, `avif` brand); lossless or quality-dialled
    /// reduced-header stills at every (depth, chroma) pairing.
    Av1,
}

/// Encoding options.
#[derive(Debug)]
pub struct EncodeOptions {
    /// Codec.
    pub codec: StillCodec,
    /// HEVC: `"pcm"` (lossless), `"intra"` (CABAC intra at `qp`).
    pub hevc_mode: String,
    /// HEVC intra QP (0..=51).
    pub qp: u8,
    /// Split the picture into a grid of `tile × tile` tiles (`grid`
    /// derived item) when set; tiles are at least 64 pixels (MIAF).
    pub grid_tile: Option<u32>,
    /// Add a thumbnail whose largest dimension is this many pixels.
    pub thumbnail_max_dim: Option<u32>,
    /// Colour information written as `colr`.
    pub colr: Colr,
    /// ICC profile written as a second `colr` (`prof`).
    pub icc_profile: Option<Vec<u8>>,
    /// Exif payload (from the TIFF header) to attach.
    pub exif: Option<Vec<u8>>,
    /// XMP packet to attach.
    pub xmp: Option<String>,
    /// Transformative properties applied to the primary (in order),
    /// written as an `iden` item over the coded image.
    pub transforms: Vec<Property>,
    /// AV1: quality dial 0..=100 (100 = lossless) for lossy items;
    /// `None` codes lossless.
    pub av1_quality: Option<u8>,
    /// AV1 search effort: `"fast"` (default), `"balanced"`, `"thorough"`.
    pub av1_speed: String,
    /// HEVC intra mode-decision effort (`rd` 0..=2; the encoder's
    /// still default when `None`).
    pub hevc_rd: Option<u32>,
    /// HEVC tile layout (`"CxR"`, e.g. `"4x4"`) for parallel coding.
    pub hevc_tiles: Option<String>,
    /// ISO 21496-1 gain map to carry as a `tmap` derived item over
    /// the primary (HEIF Amd 1 §6.6.2.4).
    pub gain_map: Option<GainMapSpec>,
}

/// A gain map to write next to the base image (see
/// [`EncodeOptions::gain_map`]): the map picture, its ISO 21496-1
/// metadata and the alternate (fully applied) rendition's colour
/// information. The map is coded with the same codec as the base, as
/// a hidden item with an `nclx` `colr` of `colour_primaries =
/// transfer_characteristics = 2` (the clause's rule) carrying
/// `gain_map_matrix` / `gain_map_full_range`; monochrome maps stay
/// monochrome (AV1) or ride the luma of a 4:2:0 picture (HEVC).
#[derive(Debug)]
pub struct GainMapSpec {
    /// The gain-map picture (monochrome or colour; any size — 21496-1
    /// §6.2.2 resamples it to the base at application).
    pub frame: HeifFrame,
    /// The C.2 metadata (`GainMapMetadata`).
    pub metadata: GainMapMetadata,
    /// The alternate image's colour information, written as the
    /// `tmap` item's `colr` (21496-1 §5.3.2).
    pub alternate_colr: Colr,
    /// `matrix_coefficients` of the stored gain map's YCbCr coding
    /// (colour maps; ignored for monochrome).
    pub gain_map_matrix: u16,
    /// `full_range_flag` of the stored gain map.
    pub gain_map_full_range: bool,
    /// `clli` hint for the alternate rendition, written on the `tmap`
    /// item ("should", §6.6.2.4.1).
    pub alternate_clli: Option<Clli>,
    /// The `pixi` hint on the `tmap` item: "the approximate amount of
    /// colour resolution available after fully applying the gain map"
    /// (§6.6.2.4.1); also the depth this crate reconstructs the applied
    /// rendition at. 10–12 suits a PQ / HLG alternate over an 8-bit base.
    pub alternate_bit_depth: u8,
}

impl Default for EncodeOptions {
    fn default() -> (r: Self)
        ensures
            r.codec == StillCodec::Hevc,
            r.hevc_mode@ == "intra"@,
            r.qp == 26,
            r.grid_tile is None,
            r.thumbnail_max_dim is None,
            r.colr@ == ColrModel::miaf_default(),
            r.icc_profile is None,
            r.exif is None,
            r.xmp is None,
            r.transforms@.len() == 0,
            r.av1_quality is None,
            r.av1_speed@ == "fast"@,
            r.hevc_rd is None,
            r.hevc_tiles is None,
            r.gain_map is None,
    {
        EncodeOptions {
            codec: StillCodec::Hevc,
            hevc_mode: text_of("intra"),
            qp: 26,
            grid_tile: None,
            thumbnail_max_dim: None,
            colr: Colr::miaf_default(),
            icc_profile: None,
            exif: None,
            xmp: None,
            transforms: Vec::new(),
            av1_quality: None,
            av1_speed: text_of("fast"),
            hevc_rd: None,
            hevc_tiles: None,
            gain_map: None,
        }
    }
}

/// A text of its own.
pub(crate) fn text_of(t: &str) -> (r: String)
    ensures
        r@ == t@,
{
    String::from_str(t)
}

/// Add a codec option.
pub(crate) fn push_pair(v: &mut Vec<(String, String)>, key: &str, value: &str)
    ensures
        option_texts(final(v)@) == option_texts(old(v)@).push((key@, value@)),
{
    let ghost before = option_texts(v@);
    let pair: (String, String) = (text_of(key), text_of(value));
    v.push(pair);
    assert(option_texts(v@) =~= before.push((key@, value@)));
}

/// A coded picture ready to become an item.
#[derive(Debug)]
pub struct CodedPicture {
    /// Item type.
    pub item_type: FourCc,
    /// Item payload (length-prefixed NAL units / AV1 temporal unit).
    pub data: Vec<u8>,
    /// Decoder configuration property.
    pub config: Property,
    /// Coded picture size (before any `clap`).
    pub coded_width: u32,
    /// Coded picture size.
    pub coded_height: u32,
    /// Sample layout of the coded picture.
    pub layout: HeifPixelFormat,
}

/// Model of [`CodedPicture`].
pub struct CodedPictureModel {
    /// Item type.
    pub item_type: FourCc,
    /// Item payload.
    pub data: Seq<u8>,
    /// Decoder configuration property.
    pub config: PropertyModel,
    /// Coded picture size.
    pub size: (u32, u32),
    /// Sample layout of the coded picture.
    pub layout: HeifPixelFormat,
}

impl View for CodedPicture {
    type V = CodedPictureModel;

    open spec fn view(&self) -> CodedPictureModel {
        CodedPictureModel {
            item_type: self.item_type,
            data: self.data@,
            config: self.config@,
            size: (self.coded_width, self.coded_height),
            layout: self.layout,
        }
    }
}

impl CodedPictureModel {
    /// The coded size fits the offsets of a clean aperture.
    pub open spec fn fits(self) -> bool {
        self.size.0 <= i32::MAX && self.size.1 <= i32::MAX
    }
}

impl CodedPicture {
    /// The coded size fits the offsets of a clean aperture.
    pub open spec fn wf(self) -> bool {
        self@.fits()
    }
}

/// `v` rounded up to a multiple of `n`.
pub open spec fn aligned(v: int, n: int) -> int {
    (v + n - 1) / n * n
}

/// Align a dimension up to `n`.
pub fn align_up(v: u32, n: u32) -> (r: u32)
    requires
        n > 0,
        aligned(v as int, n as int) <= u32::MAX,
    ensures
        r == aligned(v as int, n as int),
{
    let q: u64 = (v as u64 + n as u64 - 1) / n as u64;
    proof {
        assert(q * n <= v + n - 1) by (nonlinear_arith)
            requires
                q == (v + n - 1) / n as int,
                n > 0,
        ;
    }
    (q * n as u64) as u32
}

/// The size an encoder codes a picture at: a multiple of its block size.
pub open spec fn block_of(codec: StillCodec) -> u32 {
    match codec {
        StillCodec::Hevc => 16,
        StillCodec::Av1 => 8,
    }
}

/// The block size of the codec.
pub fn alignment(opts: &EncodeOptions) -> (r: u32)
    ensures
        r == block_of(opts.codec),
{
    match opts.codec {
        StillCodec::Hevc => 16,
        StillCodec::Av1 => 8,
    }
}

/// The models of a list of properties with their essential flags.
pub open spec fn marked(v: Seq<(Property, bool)>) -> Seq<(PropertyModel, bool)> {
    Seq::new(v.len(), |i: int| (v[i].0@, v[i].1))
}

/// A list of essential properties.
pub open spec fn all_essential(v: Seq<Property>) -> Seq<(PropertyModel, bool)> {
    Seq::new(v.len(), |i: int| (v[i]@, true))
}

/// The transformative chain of `opts` as essential property entries,
/// attached to every displayed item (master, alpha auxiliary,
/// thumbnails) so third-party readers that only honour properties on
/// the item they decode still render the intended orientation.
pub(crate) fn push_transforms(props: &mut Vec<(Property, bool)>, opts: &EncodeOptions)
    ensures
        marked(final(props)@) == marked(old(props)@) + all_essential(opts.transforms@),
{
    let ghost start = marked(props@);
    for i in 0..opts.transforms.len()
        invariant
            marked(props@) == start + all_essential(opts.transforms@).take(i as int),
    {
        let ghost before = marked(props@);
        let t: Property = opts.transforms[i].clone();
        props.push((t, true));
        proof {
            assert(marked(props@) =~= before.push((t@, true)));
            assert(marked(props@) =~= start + all_essential(opts.transforms@).take(i + 1));
        }
    }
    assert(marked(props@) =~= start + all_essential(opts.transforms@));
}

/// The `nclx` written next to an ICC profile.
pub open spec fn paired_nclx(colr: ColrModel, icc_present: bool) -> ColrModel {
    match colr {
        ColrModel::Nclx { matrix, full_range, .. } => if icc_present {
            ColrModel::Nclx { primaries: 2, transfer: 2, matrix, full_range }
        } else {
            colr
        },
        _ => colr,
    }
}

/// The `nclx` to write next to `colr` when an ICC profile is present:
/// HEIF §6.5.5 requires `colour_primaries = transfer_characteristics = 2`
/// for an nclx paired with an ICC (only the matrix / range stay
/// meaningful, since the ICC governs colour); the caller's `nclx` is
/// used unchanged when there is no ICC.
pub fn nclx_for_icc(colr: &Colr, icc_present: bool) -> (r: Colr)
    ensures
        r@ == paired_nclx(colr@, icc_present),
{
    match colr {
        Colr::Nclx { matrix, full_range, .. } => if icc_present {
            Colr::Nclx { primaries: 2, transfer: 2, matrix: *matrix, full_range: *full_range }
        } else {
            colr.clone()
        },
        _ => colr.clone(),
    }
}

/// The same depth for a number of channels.
pub open spec fn channels(depth: u8, n: int) -> PropertyModel {
    PropertyModel::Pixi(PixiModel { bits_per_channel: Seq::new(n as nat, |i: int| depth) })
}

/// The `pixi` of a number of channels of one depth.
pub(crate) fn pixi_of(depth: u8, n: usize) -> (r: Property)
    ensures
        r@ == channels(depth, n as int),
{
    let mut bits: Vec<u8> = Vec::new();
    for i in 0..n
        invariant
            bits@.len() == i,
            forall|k: int| 0 <= k < i ==> #[trigger] bits@[k] == depth,
    {
        bits.push(depth);
    }
    let p: Pixi = Pixi { bits_per_channel: bits };
    assert(p@.bits_per_channel =~= Seq::new(n as nat, |i: int| depth));
    Property::Pixi(p)
}

/// An ICC profile as a property.
pub open spec fn icc_property(profile: Seq<u8>) -> PropertyModel {
    PropertyModel::Colr(ColrModel::Icc { restricted: false, profile })
}

/// The colour properties of an item: its `nclx`, and the ICC profile when there
/// is one.
pub open spec fn colour_props(colr: ColrModel, icc: Option<Seq<u8>>) -> Seq<(PropertyModel, bool)> {
    let first = seq![(PropertyModel::Colr(paired_nclx(colr, icc is Some)), false)];
    match icc {
        Some(b) => first.push((icc_property(b), false)),
        None => first,
    }
}

/// The properties that describe a coded picture, without its colour: its
/// configuration, its size and its channels.
pub open spec fn picture_props(pic: CodedPictureModel, pixi: int) -> Seq<(PropertyModel, bool)> {
    seq![
        (pic.config, true),
        (PropertyModel::Ispe(Ispe { width: pic.size.0, height: pic.size.1 }), false),
        (channels(pic.layout.bit_depth, pixi), false),
    ]
}

/// The standard descriptive properties of a coded item.
pub open spec fn described(pic: CodedPictureModel, colr: ColrModel, icc: Option<Seq<u8>>) -> Seq<
    (PropertyModel, bool),
> {
    picture_props(pic, pic.layout.chroma.planes()) + colour_props(colr, icc)
}

/// The bytes of a profile that may be absent.
pub open spec fn profile_bytes(icc: Option<&[u8]>) -> Option<Seq<u8>> {
    match icc {
        Some(b) => Some(b@),
        None => None,
    }
}

pub(crate) fn push_picture_props(
    props: &mut Vec<(Property, bool)>,
    pic: &CodedPicture,
    pixi: usize,
)
    ensures
        marked(final(props)@) == marked(old(props)@) + picture_props(pic@, pixi as int),
{
    let ghost before = marked(props@);
    let config: Property = pic.config.clone();
    let bits: Property = pixi_of(pic.layout.bit_depth, pixi);
    props.push((config, true));
    props.push(
        (Property::Ispe(Ispe { width: pic.coded_width, height: pic.coded_height }), false),
    );
    props.push((bits, false));
    assert(marked(props@) =~= before + picture_props(pic@, pixi as int));
}

pub(crate) fn push_colour_props(
    props: &mut Vec<(Property, bool)>,
    colr: &Colr,
    icc: Option<&[u8]>,
)
    ensures
        marked(final(props)@) == marked(old(props)@) + colour_props(colr@, profile_bytes(icc)),
{
    let ghost before = marked(props@);
    let nclx: Colr = nclx_for_icc(colr, icc.is_some());
    props.push((Property::Colr(nclx), false));
    if let Some(b) = icc {
        let profile: Vec<u8> = crate::bytes::copy_of(b);
        let p: Property = Property::Colr(Colr::Icc { restricted: false, profile });
        props.push((p, false));
    }
    assert(marked(props@) =~= before + colour_props(colr@, profile_bytes(icc)));
}

/// Standard descriptive properties of a coded item.
pub fn coded_props(pic: &CodedPicture, colr: &Colr, icc: Option<&[u8]>) -> (r: Vec<(Property, bool)>)
    ensures
        marked(r@) == described(pic@, colr@, profile_bytes(icc)),
{
    let mut v: Vec<(Property, bool)> = Vec::new();
    assert(marked(v@) =~= Seq::empty());
    push_picture_props(&mut v, pic, pic.layout.chroma.colour_planes());
    push_colour_props(&mut v, colr, icc);
    assert(marked(v@) =~= described(pic@, colr@, profile_bytes(icc)));
    v
}

/// The clean aperture of a picture that was coded larger than it is.
pub open spec fn aperture(pic: CodedPictureModel, w: u32, h: u32) -> Seq<(PropertyModel, bool)> {
    if pic.size.0 == w && pic.size.1 == h {
        Seq::empty()
    } else {
        seq![
            (
                PropertyModel::Clap(
                    Clap::selecting(
                        pic.size.0,
                        pic.size.1,
                        CropRect { x: 0, y: 0, width: w, height: h },
                    ),
                ),
                true,
            ),
        ]
    }
}

pub(crate) fn push_aperture(props: &mut Vec<(Property, bool)>, pic: &CodedPicture, w: u32, h: u32)
    requires
        pic.wf(),
        w <= i32::MAX,
        h <= i32::MAX,
    ensures
        marked(final(props)@) == marked(old(props)@) + aperture(pic@, w, h),
{
    let ghost before = marked(props@);
    if pic.coded_width != w || pic.coded_height != h {
        let c: Clap = Clap::for_rect(
            pic.coded_width,
            pic.coded_height,
            CropRect { x: 0, y: 0, width: w, height: h },
        );
        props.push((Property::Clap(c), true));
    }
    assert(marked(props@) =~= before + aperture(pic@, w, h));
}

/// The models of a list of codec options.
pub open spec fn option_texts(v: Seq<(String, String)>) -> Seq<(Seq<char>, Seq<char>)> {
    Seq::new(v.len(), |i: int| (v[i].0@, v[i].1@))
}

/// The codec options that carry colour information into the bitstream.
pub open spec fn signal_of(colr: ColrModel) -> Seq<(Seq<char>, Seq<char>)> {
    match colr {
        ColrModel::Nclx { primaries, transfer, matrix, full_range } => seq![
            (
                "range"@,
                if full_range {
                    "full"@
                } else {
                    "limited"@
                },
            ),
            ("colorprim"@, crate::text::decimal_chars(primaries as nat)),
            ("transfer"@, crate::text::decimal_chars(transfer as nat)),
            ("matrix"@, crate::text::decimal_chars(matrix as nat)),
        ],
        _ => seq![("range"@, "full"@)],
    }
}

/// The codec options of the effort and of the tile layout.
pub open spec fn effort_of(opts: EncodeOptions) -> Seq<(Seq<char>, Seq<char>)> {
    let rd = match opts.hevc_rd {
        Some(n) => seq![
            (
                "rd"@,
                crate::text::decimal_chars(
                    if n < 2 {
                        n as nat
                    } else {
                        2
                    },
                ),
            ),
        ],
        None => Seq::empty(),
    };
    match opts.hevc_tiles {
        Some(t) => rd.push(("tiles"@, t@)),
        None => rd,
    }
}

fn push_option(v: &mut Vec<(String, String)>, key: &str, value: &str)
    ensures
        option_texts(final(v)@) == option_texts(old(v)@).push((key@, value@)),
{
    let ghost before = option_texts(v@);
    let pair: (String, String) = (text_of(key), text_of(value));
    v.push(pair);
    assert(option_texts(v@) =~= before.push((key@, value@)));
}

/// The HEVC encoder options that carry the item's colour information
/// into the bitstream VUI (§E.2.1 `video_signal_type`: range + H.273
/// colour description — the field an OS image reader takes the sample
/// range from) and mark the access unit as a Main Still Picture.
pub fn hevc_signal_options(colr: &Colr, opts: &EncodeOptions) -> (r: Vec<(String, String)>)
    ensures
        option_texts(r@) == seq![("still"@, "1"@)] + signal_of(colr@) + effort_of(*opts),
{
    let mut v: Vec<(String, String)> = Vec::new();
    assert(option_texts(v@) =~= Seq::empty());
    push_option(&mut v, "still", "1");
    match colr {
        Colr::Nclx { primaries, transfer, matrix, full_range } => {
            push_option(
                &mut v,
                "range",
                if *full_range {
                    "full"
                } else {
                    "limited"
                },
            );
            let p: String = decimal(*primaries as u64);
            let t: String = decimal(*transfer as u64);
            let m: String = decimal(*matrix as u64);
            push_option(&mut v, "colorprim", p.as_str());
            push_option(&mut v, "transfer", t.as_str());
            push_option(&mut v, "matrix", m.as_str());
        },
        _ => {
            push_option(&mut v, "range", "full");
        },
    }
    assert(option_texts(v@) =~= seq![("still"@, "1"@)] + signal_of(colr@));
    if let Some(rd) = opts.hevc_rd {
        let n: String = decimal(
            if rd < 2 {
                rd as u64
            } else {
                2
            },
        );
        push_option(&mut v, "rd", n.as_str());
    }
    if let Some(t) = &opts.hevc_tiles {
        push_option(&mut v, "tiles", t.as_str());
    }
    assert(option_texts(v@) =~= seq![("still"@, "1"@)] + signal_of(colr@) + effort_of(*opts));
    v
}

} // verus!
