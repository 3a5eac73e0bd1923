//! Pictures coded, written as files and decoded again.
use oxideav_h264::encoder::{Encoder, EncoderConfig, YuvFrame};
use oxideav_heif::boxes::write::{boxed, full_boxed};
use oxideav_heif::boxes::Reader;
use oxideav_heif::compose::apply_irot;
use oxideav_heif::decode::codec::picture_of_frames;
use oxideav_heif::decode::{decode_item, decode_primary, ItemDecoder};
use oxideav_heif::demux::predict_output;
use oxideav_heif::demux::streams::plan_streams;
use oxideav_heif::derived::{build_primary_graph, GridDescriptor};
use oxideav_heif::encode::hevc::picture_of_packets;
use oxideav_heif::encode::items::{ItemSpec, Step};
use oxideav_heif::encode::{
    avc_item_from_annex_b, encode_av1_picture, encode_hevc_picture, encode_hevc_picture_with,
    encode_still, hevc_item_from_annex_b, CodedPicture, EncodeOptions, GainMapSpec, StillCodec,
};
use oxideav_heif::gainmap::{GainMapChannel, GainMapMetadata, Rational};
use oxideav_heif::image::{Chroma, HeifFrame, HeifPixelFormat, HeifPlane};
use oxideav_heif::miaf::{check, MiafReport};
use oxideav_heif::props::write::property_box;
use oxideav_heif::props::{Colr, Irot, Ispe, Property};
use oxideav_heif::{HeifError, HeifFile, MiafProfile};

type Props = Vec<(Property, bool)>;

struct Entry {
    item_type: [u8; 4],
    data: Vec<u8>,
    props: Props,
}

fn entry(i: ItemSpec) -> Entry {
    Entry {
        item_type: i.item_type,
        data: i.data,
        props: i.props,
    }
}

/// A file whose items have the ids 1, 2, … in order, the references
/// `(type, from, to)` and item `primary` as the primary one.
fn file_of(items: &[Entry], refs: &[([u8; 4], u16, Vec<u16>)], primary: u16) -> Vec<u8> {
    let mut brands = b"heic".to_vec();
    brands.extend_from_slice(&[0; 4]);
    brands.extend_from_slice(b"mif1");
    let ftyp = boxed(b"ftyp", &brands);
    let mut hdlr = vec![0u8; 4];
    hdlr.extend_from_slice(b"pict");
    hdlr.extend_from_slice(&[0u8; 13]);
    let mut iinf = (items.len() as u16).to_be_bytes().to_vec();
    let mut ipco = Vec::new();
    let mut ipma = (items.len() as u32).to_be_bytes().to_vec();
    let mut next = 1u16;
    for (i, it) in items.iter().enumerate() {
        let id = i as u16 + 1;
        let mut infe = id.to_be_bytes().to_vec();
        infe.extend_from_slice(&[0, 0]);
        infe.extend_from_slice(&it.item_type);
        infe.push(0);
        iinf.extend(full_boxed(b"infe", 2, 0, &infe));
        ipma.extend_from_slice(&id.to_be_bytes());
        ipma.push(it.props.len() as u8);
        for (p, essential) in &it.props {
            ipco.extend(property_box(p));
            ipma.extend_from_slice(&(next | if *essential { 0x8000 } else { 0 }).to_be_bytes());
            next += 1;
        }
    }
    let mut iprp = boxed(b"ipco", &ipco);
    iprp.extend(full_boxed(b"ipma", 0, 1, &ipma));
    let mut iref = Vec::new();
    for (t, from, to) in refs {
        let mut b = from.to_be_bytes().to_vec();
        b.extend_from_slice(&(to.len() as u16).to_be_bytes());
        for id in to {
            b.extend_from_slice(&id.to_be_bytes());
        }
        iref.extend(boxed(t, &b));
    }
    let build = |start: usize| -> Vec<u8> {
        let mut iloc = vec![0x44u8, 0x00];
        iloc.extend_from_slice(&(items.len() as u16).to_be_bytes());
        let mut at = start;
        for (i, it) in items.iter().enumerate() {
            iloc.extend_from_slice(&(i as u16 + 1).to_be_bytes());
            iloc.extend_from_slice(&[0, 0, 0, 1]);
            iloc.extend_from_slice(&(at as u32).to_be_bytes());
            iloc.extend_from_slice(&(it.data.len() as u32).to_be_bytes());
            at += it.data.len();
        }
        let mut meta = vec![0u8; 4];
        meta.extend(full_boxed(b"hdlr", 0, 0, &hdlr));
        meta.extend(full_boxed(b"pitm", 0, 0, &primary.to_be_bytes()));
        meta.extend(full_boxed(b"iinf", 0, 0, &iinf));
        meta.extend(full_boxed(b"iloc", 0, 0, &iloc));
        meta.extend(full_boxed(b"iref", 0, 0, &iref));
        meta.extend(boxed(b"iprp", &iprp));
        let mut f = ftyp.clone();
        f.extend(boxed(b"meta", &meta));
        f
    };
    let head = build(0).len();
    let mut f = build(head + 8);
    let mut mdat = Vec::new();
    for it in items {
        mdat.extend_from_slice(&it.data);
    }
    f.extend(boxed(b"mdat", &mdat));
    f
}

fn coded(pic: CodedPicture) -> Entry {
    Entry {
        item_type: pic.item_type,
        data: pic.data,
        props: vec![
            (pic.config, true),
            (
                Property::Ispe(Ispe {
                    width: pic.coded_width,
                    height: pic.coded_height,
                }),
                false,
            ),
        ],
    }
}

fn picture(w: u32, h: u32, chroma: Chroma, depth: u8, alpha: bool) -> HeifFrame {
    let fmt = HeifPixelFormat::new(chroma, depth, alpha).unwrap();
    let mut f = HeifFrame::zeroed(w, h, fmt).unwrap();
    for p in 0..fmt.plane_count() {
        let (pw, ph) = f.plane_dims(p);
        for y in 0..ph {
            for x in 0..pw {
                let v = (x * 7 + y * 13 + p as u32 * 40) % (fmt.max_value() as u32 + 1);
                f.set_sample(p, x, y, v as u16);
            }
        }
    }
    f
}

fn av1_options() -> EncodeOptions {
    EncodeOptions {
        codec: StillCodec::Av1,
        ..EncodeOptions::default()
    }
}

#[test]
fn a_lossless_av1_item_decodes_to_its_picture() {
    let f = picture(16, 24, Chroma::Yuv420, 10, false);
    let pic = encode_av1_picture(&f, &av1_options()).unwrap();
    assert_eq!(pic.item_type, *b"av01");
    assert_eq!((pic.coded_width, pic.coded_height), (16, 24));
    assert_eq!(pic.layout, f.format);
    let bytes = file_of(&[coded(pic)], &[], 1);
    let file = HeifFile::parse(&bytes).unwrap();
    let img = decode_primary(&file, ItemDecoder::direct()).unwrap().unwrap();
    assert_eq!(img.item_id, 1);
    assert_eq!(img.frame, f);
    assert!(!img.nclx_explicit);
    assert!(img.gain_map.is_none());
    assert!(matches!(
        decode_item(&file, 2, ItemDecoder::direct()),
        Err(HeifError::InvalidData(_))
    ));
}

#[test]
fn the_forecast_is_what_is_decoded() {
    let f = picture(16, 24, Chroma::Yuv420, 8, false);
    let pic = encode_av1_picture(&f, &av1_options()).unwrap();
    let mut item = coded(pic);
    item.props.push((Property::Irot(Irot { angle: 1 }), true));
    let derived = Entry {
        item_type: *b"iden",
        data: Vec::new(),
        props: vec![(Property::Irot(Irot { angle: 2 }), true)],
    };
    let bytes = file_of(&[item, derived], &[(*b"dimg", 2, vec![1])], 2);
    let file = HeifFile::parse(&bytes).unwrap();
    let node = build_primary_graph(&file).unwrap();
    let img = decode_primary(&file, ItemDecoder::direct()).unwrap().unwrap();
    assert_eq!(
        predict_output(&node).unwrap(),
        (img.frame.format, (img.frame.width, img.frame.height))
    );
    assert_eq!((img.frame.width, img.frame.height), (24, 16));
    // Three quarter turns in all.
    let turned = apply_irot(&f, &Irot { angle: 3 }).unwrap();
    assert_eq!(img.frame, turned);
    let plan = plan_streams(&file, None, &[]).unwrap();
    assert_eq!(plan.streams.len(), 1);
    assert_eq!(plan.streams[0].size, Some((24, 16)));
    assert_eq!(plan.streams[0].codec_id, "heif");
}

#[test]
fn an_image_derived_from_itself_is_refused() {
    let derived = || Entry {
        item_type: *b"iden",
        data: Vec::new(),
        props: Vec::new(),
    };
    let refs = [(*b"dimg", 1, vec![2]), (*b"dimg", 2, vec![1])];
    let bytes = file_of(&[derived(), derived()], &refs, 1);
    let file = HeifFile::parse(&bytes).unwrap();
    assert!(build_primary_graph(&file).is_err());
    assert!(decode_primary(&file, ItemDecoder::direct()).is_err());
}

#[test]
fn a_profile_finds_what_miaf_finds() {
    let f = picture(16, 16, Chroma::Yuv444, 8, false);
    let pic = encode_av1_picture(&f, &av1_options()).unwrap();
    let mut item = coded(pic);
    item.props.pop();
    let bytes = file_of(&[item], &[], 1);
    let file = HeifFile::parse(&bytes).unwrap();
    let miaf = check(&file, MiafProfile::Miaf).unwrap();
    assert!(miaf.violations.iter().any(|v| v.clause == "7.3.6.3"));
    // 4:4:4 takes a profile that the basic one does not have.
    let basic = check(&file, MiafProfile::Av1Basic).unwrap();
    assert!(basic
        .violations
        .iter()
        .any(|v| v.clause == "AVIF 7" && v.item_id == Some(1)));
    let advanced = check(&file, MiafProfile::Av1Advanced).unwrap();
    assert!(advanced.violations.iter().all(|v| v.clause != "AVIF 7"));
    assert!(!basic.is_conformant());
    // In order, and with the same messages.
    let mut rest = basic.violations.iter();
    for v in &miaf.violations {
        assert!(rest.any(|w| w == v));
    }
    let says = |rep: &MiafReport, clause: &str| -> Vec<String> {
        rep.violations
            .iter()
            .filter(|v| v.clause == clause)
            .map(|v| v.message.clone())
            .collect()
    };
    assert_eq!(says(&miaf, "7.3.6.3"), vec!["no ispe property"]);
    assert_eq!(says(&basic, "AVIF 7"), vec!["seq_profile 1 exceeds the profile's 0"]);
}

#[test]
fn a_file_without_a_primary_item_is_reported() {
    let f = picture(16, 16, Chroma::Yuv444, 8, false);
    let pic = encode_av1_picture(&f, &av1_options()).unwrap();
    let bytes = file_of(&[coded(pic)], &[], 9);
    let file = HeifFile::parse(&bytes).unwrap();
    let rep = check(&file, MiafProfile::HevcBasic).unwrap();
    let last = rep.violations.last().unwrap();
    assert_eq!((last.clause, last.item_id), ("7.2.1.10", None));
    assert_eq!(
        last.message,
        "heif: invalid data: pitm names item 9 which is not in iinf"
    );
}

#[test]
fn text_that_is_no_utf8_is_replaced() {
    let bytes = [b'a', 0xff, b'b', 0, 7];
    let mut r = Reader::new(&bytes);
    assert_eq!(r.cstr("name").unwrap(), "a\u{fffd}b");
    assert_eq!(r.remaining(), 1);
}

#[test]
fn a_pcm_hevc_item_decodes_to_its_picture() {
    let f = picture(32, 16, Chroma::Yuv420, 8, false);
    let pic = encode_hevc_picture(&f, "pcm", 26).unwrap();
    assert_eq!(pic.item_type, *b"hvc1");
    assert_eq!((pic.coded_width, pic.coded_height), (32, 16));
    let other = encode_hevc_picture_with(&f, "pcm", 26, &[("vpsid", "1"), ("spsid", "1"), ("ppsid", "1")])
        .unwrap();
    assert_ne!(pic.data, other.data);
    let bytes = file_of(&[coded(pic), coded(other)], &[], 1);
    let file = HeifFile::parse(&bytes).unwrap();
    let img = decode_primary(&file, ItemDecoder::direct()).unwrap().unwrap();
    assert_eq!(img.frame, f);
    let twin = decode_item(&file, 2, ItemDecoder::direct()).unwrap().unwrap();
    assert_eq!(twin.frame, f);
}

#[test]
fn the_hevc_encoder_takes_eight_bit_420_and_known_modes() {
    let deep = picture(16, 16, Chroma::Yuv420, 10, false);
    assert!(matches!(
        encode_hevc_picture(&deep, "pcm", 26),
        Err(HeifError::Unsupported(_))
    ));
    let f = picture(16, 16, Chroma::Yuv420, 8, false);
    assert!(matches!(
        encode_hevc_picture(&f, "no such mode", 26),
        Err(HeifError::Unsupported(_))
    ));
    assert!(picture_of_packets(&[vec![0, 0, 1, 2]], false).is_err());
    assert!(picture_of_packets(&[vec![0, 0, 1, 2]], true).is_err());
}

#[test]
fn an_avc_access_unit_becomes_an_item_that_decodes() {
    let f = picture(32, 32, Chroma::Yuv420, 8, false);
    let idr = Encoder::new(EncoderConfig::new(32, 32)).encode_idr(&YuvFrame {
        width: 32,
        height: 32,
        y: &f.planes[0].data,
        u: &f.planes[1].data,
        v: &f.planes[2].data,
    });
    let (cfg, data, w, h, layout) = avc_item_from_annex_b(&idr.annex_b).unwrap();
    assert_eq!((w, h), (32, 32));
    assert_eq!(layout, f.format);
    assert_eq!(cfg.profile_idc, 66);
    assert_eq!((cfg.sps.len(), cfg.pps.len()), (1, 1));
    let item = Entry {
        item_type: *b"avc1",
        data,
        props: vec![
            (Property::AvcC(cfg), true),
            (
                Property::Ispe(Ispe {
                    width: 32,
                    height: 32,
                }),
                false,
            ),
        ],
    };
    let bytes = file_of(&[item], &[], 1);
    let file = HeifFile::parse(&bytes).unwrap();
    let img = decode_primary(&file, ItemDecoder::direct()).unwrap().unwrap();
    assert_eq!(img.frame.planes[0].data, idr.recon_y);
    assert_eq!(img.frame.planes[1].data, idr.recon_u);
    assert_eq!(img.frame.planes[2].data, idr.recon_v);
}

#[test]
fn streams_without_parameter_sets_are_refused() {
    assert!(avc_item_from_annex_b(&[0, 0, 1, 0x65, 1, 2, 3]).is_err());
    assert!(hevc_item_from_annex_b(&[0, 0, 1, 0x26, 1, 2, 3]).is_err());
}

#[test]
fn the_first_picture_of_a_decoder_counts() {
    let layout = HeifPixelFormat::new(Chroma::Mono, 8, false).unwrap();
    let plane = |v: u8| {
        Some(vec![HeifPlane {
            stride: 2,
            data: vec![v; 4],
        }])
    };
    let frames = [None, plane(3), plane(4)];
    let f = picture_of_frames(&frames, true, layout, Some((2, 2)), 1).unwrap();
    assert_eq!(f.sample(0, 1, 1), 3);
    assert!(picture_of_frames(&frames, false, layout, Some((2, 2)), 1).is_err());
    assert!(picture_of_frames(&[None], true, layout, Some((2, 2)), 1).is_err());
}

#[test]
fn the_tiles_of_a_grid_compose_back_to_the_picture() {
    let f = picture(100, 70, Chroma::Yuv420, 8, false);
    let opts = EncodeOptions {
        grid_tile: Some(64),
        ..av1_options()
    };
    let steps = encode_still(&f, &opts).unwrap();
    let mut items = Vec::new();
    let mut grid = None;
    for s in steps {
        match s {
            Step::Tile(i) => items.push(entry(i)),
            Step::Grid(g, props) => grid = Some((g, props)),
            Step::Primary => {}
            other => panic!("{other:?}"),
        }
    }
    let (g, props) = grid.unwrap();
    assert_eq!(
        g,
        GridDescriptor {
            rows: 2,
            columns: 2,
            output_width: 100,
            output_height: 70
        }
    );
    assert_eq!(items.len(), 4);
    items.push(Entry {
        item_type: *b"grid",
        data: g.to_bytes(),
        props,
    });
    let bytes = file_of(&items, &[(*b"dimg", 5, vec![1, 2, 3, 4])], 5);
    let file = HeifFile::parse(&bytes).unwrap();
    let img = decode_primary(&file, ItemDecoder::direct()).unwrap().unwrap();
    assert_eq!(img.frame, f);
    assert!(img.nclx_explicit);
}

#[test]
fn a_still_with_everything_is_written_in_order() {
    let mut f = picture(20, 12, Chroma::Yuv420, 8, true);
    f.set_sample(3, 0, 0, 200);
    let ch = GainMapChannel {
        gain_map_min: Rational { num: 0, den: 1 },
        gain_map_max: Rational { num: 1, den: 1 },
        gamma: Rational { num: 1, den: 1 },
        base_offset: Rational { num: 0, den: 1 },
        alternate_offset: Rational { num: 0, den: 1 },
    };
    let opts = EncodeOptions {
        thumbnail_max_dim: Some(10),
        exif: Some(vec![1, 2, 3]),
        xmp: Some("<x/>".to_string()),
        transforms: vec![Property::Irot(Irot { angle: 2 })],
        gain_map: Some(GainMapSpec {
            frame: picture(10, 6, Chroma::Mono, 8, false),
            metadata: GainMapMetadata {
                minimum_version: 0,
                writer_version: 0,
                is_multichannel: false,
                use_base_colour_space: true,
                base_hdr_headroom: Rational { num: 0, den: 1 },
                alternate_hdr_headroom: Rational { num: 2, den: 1 },
                channels: vec![ch],
            },
            alternate_colr: Colr::miaf_default(),
            gain_map_matrix: 6,
            gain_map_full_range: true,
            alternate_clli: None,
            alternate_bit_depth: 10,
        }),
        ..av1_options()
    };
    let steps = encode_still(&f, &opts).unwrap();
    let names: Vec<&str> = steps
        .iter()
        .map(|s| match s {
            Step::Tile(_) => "tile",
            Step::Grid(_, _) => "grid",
            Step::Master(_) => "master",
            Step::Alpha(_) => "alpha",
            Step::Thumbnail(_) => "thumbnail",
            Step::Exif(_) => "exif",
            Step::Xmp(_) => "xmp",
            Step::GainMap(_) => "gain map",
            Step::ToneMap(_, _, _) => "tone map",
            Step::Primary => "primary",
        })
        .collect();
    assert_eq!(
        names,
        [
            "master",
            "alpha",
            "thumbnail",
            "exif",
            "xmp",
            "gain map",
            "tone map",
            "primary"
        ]
    );
    let mut items = Vec::new();
    for s in steps {
        match s {
            Step::Master(i) | Step::Alpha(i) => items.push(entry(i)),
            _ => {}
        }
    }
    let bytes = file_of(&items, &[(*b"auxl", 2, vec![1])], 1);
    let file = HeifFile::parse(&bytes).unwrap();
    let img = decode_primary(&file, ItemDecoder::direct()).unwrap().unwrap();
    assert_eq!((img.width(), img.height()), (20, 12));
    assert!(img.frame.format.has_alpha);
    // Turned by half a turn: the first pixel comes last.
    assert_eq!(img.frame.sample(0, 19, 11), f.sample(0, 0, 0));
    assert_eq!(img.frame.sample(3, 19, 11), 200);
}

#[test]
fn frames_that_are_no_pictures_are_refused() {
    let mut f = picture(8, 8, Chroma::Yuv420, 8, false);
    f.planes[2].data.truncate(3);
    assert!(matches!(
        encode_still(&f, &av1_options()),
        Err(HeifError::InvalidData(_))
    ));
}
