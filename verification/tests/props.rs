use oxideav_heif::avcc::AvcConfig;
use oxideav_heif::boxes::write::{boxed, full_boxed};
use oxideav_heif::boxes::{parse_box_header, payload};
use oxideav_heif::lhvc::{LhevcConfig, OperatingPoints};
use oxideav_heif::meta::RawProperty;
use oxideav_heif::props::write::property_box;
use oxideav_heif::props::{
    A1lx, A1op, Altt, Amve, AuxC, AuxKind, Cclv, Clap, Clli, Colr, CropRect, Imir, Irot, Iscl, Ispe,
    ItemProperties, Lsel, Mdcv, Pasp, Pixi, Property, PropertyEntry, Rloc, Rref, TimeInfo, Udes,
    AUX_URN_ALPHA, AUX_URN_ALPHA_HEVC, AUX_URN_DEPTH, AUX_URN_DEPTH_HEVC,
};

fn raw_of(bytes: &[u8]) -> RawProperty {
    let h = parse_box_header(bytes, 0).unwrap();
    RawProperty {
        box_type: h.box_type,
        user_type: h.user_type,
        body: payload(bytes, &h).to_vec(),
        box_size: h.total_len(),
    }
}

fn round_trip(p: Property) {
    let bytes = property_box(&p);
    let back = Property::parse(&raw_of(&bytes)).unwrap();
    assert_eq!(back, p);
}

#[test]
fn every_typed_property_round_trips() {
    round_trip(Property::Ispe(Ispe {
        width: 640,
        height: 480,
    }));
    round_trip(Property::Pixi(Pixi {
        bits_per_channel: vec![8, 8, 8],
    }));
    round_trip(Property::Colr(Colr::miaf_default()));
    round_trip(Property::Colr(Colr::Icc {
        restricted: false,
        profile: vec![1, 2, 3],
    }));
    round_trip(Property::Colr(Colr::Icc {
        restricted: true,
        profile: vec![],
    }));
    round_trip(Property::Colr(Colr::Other {
        colour_type: *b"nclc",
        payload: vec![0; 6],
    }));
    round_trip(Property::Pasp(Pasp {
        h_spacing: 1,
        v_spacing: 1,
    }));
    round_trip(Property::Clap(Clap::integer(1, 1, -31, -31)));
    round_trip(Property::Irot(Irot { angle: 3 }));
    round_trip(Property::Imir(Imir { axis: 1 }));
    round_trip(Property::Iscl(Iscl {
        width_num: 1,
        width_den: 2,
        height_num: 3,
        height_den: 4,
    }));
    round_trip(Property::AuxC(AuxC {
        aux_type: AUX_URN_ALPHA.into(),
        aux_subtype: vec![0, 0, 0, 0],
    }));
    round_trip(Property::LhvC(LhevcConfig {
        configuration_version: 1,
        min_spatial_segmentation_idc: 0,
        parallelism_type: 0,
        num_temporal_layers: 1,
        temporal_id_nested: true,
        length_size: 4,
        arrays: vec![],
        raw: vec![1, 0xf0, 0, 0xfc, 0x0f, 0],
    }));
    round_trip(Property::AvcC(AvcConfig {
        configuration_version: 1,
        profile_idc: 66,
        profile_compatibility: 0xc0,
        level_idc: 30,
        length_size: 4,
        sps: vec![vec![0x67, 0x42, 0xc0, 0x1e]],
        pps: vec![vec![0x68, 0xce]],
        chroma_format: None,
        bit_depth_luma_minus8: None,
        bit_depth_chroma_minus8: None,
        sps_ext: vec![],
        raw: vec![
            1, 66, 0xc0, 30, 0xff, 0xe1, 0, 4, 0x67, 0x42, 0xc0, 0x1e, 1, 0, 2, 0x68, 0xce,
        ],
    }));
    round_trip(Property::Tols(3));
    round_trip(Property::Oinf(OperatingPoints {
        scalability_mask: 0,
        ptls: vec![],
        operating_points: vec![],
        layers: vec![],
        raw: vec![0, 0, 0, 0, 0, 0],
    }));
    round_trip(Property::Clli(Clli {
        max_content_light_level: 1000,
        max_pic_average_light_level: 400,
    }));
    round_trip(Property::Mdcv(Mdcv {
        display_primaries: [(13250, 34500), (7500, 3000), (34000, 16000)],
        white_point: (15635, 16450),
        max_luminance: 10_000_000,
        min_luminance: 50,
    }));
    round_trip(Property::Cclv(Cclv {
        cancel: false,
        persistence: true,
        primaries: Some([(1, -2), (3, 4), (5, 6)]),
        min_luminance: Some(1),
        max_luminance: None,
        avg_luminance: Some(3),
    }));
    round_trip(Property::Amve(Amve {
        ambient_illuminance: 314159,
        ambient_light_x: 15635,
        ambient_light_y: 16450,
    }));
}

/// ISO/IEC 14496-12 §12.1.7: the primaries are interleaved
/// `(x, y)` pairs — a symmetric parse / write pair would hide a
/// planar (x x x y y y) reading, so pin the bytes.
#[test]
fn mdcv_bytes_are_interleaved_per_primary() {
    let m = Mdcv {
        display_primaries: [(13250, 34500), (7500, 3000), (34000, 16000)],
        white_point: (15635, 16450),
        max_luminance: 10_000_000,
        min_luminance: 50,
    };
    let bytes = property_box(&Property::Mdcv(m));
    let body = &bytes[8..];
    assert_eq!(body.len(), 24, "plain Box, no version / flags");
    let u16_at = |i: usize| u16::from_be_bytes([body[i], body[i + 1]]);
    assert_eq!(
        [
            u16_at(0),
            u16_at(2),
            u16_at(4),
            u16_at(6),
            u16_at(8),
            u16_at(10)
        ],
        [13250, 34500, 7500, 3000, 34000, 16000]
    );
    assert_eq!((u16_at(12), u16_at(14)), (15635, 16450));
    assert_eq!(Property::parse(&raw_of(&bytes)).unwrap(), Property::Mdcv(m));
    // §12.1.8 `cclv` primaries likewise.
    let c = Cclv {
        cancel: false,
        persistence: false,
        primaries: Some([(1, -2), (3, 4), (5, 6)]),
        min_luminance: None,
        max_luminance: None,
        avg_luminance: None,
    };
    let bytes = property_box(&Property::Cclv(c));
    let body = &bytes[bytes.len() - 25..];
    let i32_at =
        |i: usize| i32::from_be_bytes([body[i], body[i + 1], body[i + 2], body[i + 3]]);
    assert_eq!(
        [
            i32_at(1),
            i32_at(5),
            i32_at(9),
            i32_at(13),
            i32_at(17),
            i32_at(21)
        ],
        [1, -2, 3, 4, 5, 6]
    );
    round_trip(Property::Rloc(Rloc {
        horizontal_offset: 64,
        vertical_offset: 128,
    }));
    round_trip(Property::Lsel(Lsel { layer_id: 2 }));
    round_trip(Property::A1op(A1op { op_index: 1 }));
    round_trip(Property::A1lx(A1lx {
        large_size: true,
        layer_size: [70000, 1, 0],
    }));
    round_trip(Property::A1lx(A1lx {
        large_size: false,
        layer_size: [7, 1, 0],
    }));
    round_trip(Property::Rref(Rref {
        reference_types: vec![*b"pred"],
    }));
    round_trip(Property::Crtt(TimeInfo { time: 1 << 40 }));
    round_trip(Property::Mdft(TimeInfo { time: 7 }));
    round_trip(Property::Udes(Udes {
        lang: "en".into(),
        name: "n".into(),
        description: "d".into(),
        tags: "a,b".into(),
    }));
    round_trip(Property::Altt(Altt {
        alt_text: "text".into(),
        alt_lang: "en".into(),
    }));
    round_trip(Property::Unknown(RawProperty {
        box_type: *b"zzzz",
        user_type: None,
        body: vec![1, 2, 3],
        box_size: 11,
    }));
}

#[test]
fn plain_or_full_shapes_accepted() {
    let clli_full = full_boxed(b"clli", 0, 0, &[0, 1, 0, 2]);
    match Property::parse(&raw_of(&clli_full)).unwrap() {
        Property::Clli(c) => assert_eq!(c.max_content_light_level, 1),
        other => panic!("{other:?}"),
    }
    let bad = boxed(b"clli", &[0, 1, 0]);
    assert!(Property::parse(&raw_of(&bad)).is_err());
    // cclv / amve: the FullBox-prefixed shape is read too.
    let c = Cclv {
        cancel: false,
        persistence: false,
        primaries: None,
        min_luminance: Some(5),
        max_luminance: Some(6),
        avg_luminance: None,
    };
    let plain = property_box(&Property::Cclv(c));
    let full = full_boxed(b"cclv", 0, 0, &plain[8..]);
    assert_eq!(Property::parse(&raw_of(&full)).unwrap(), Property::Cclv(c));
    let a = Amve {
        ambient_illuminance: 1,
        ambient_light_x: 2,
        ambient_light_y: 3,
    };
    let full = full_boxed(
        b"amve",
        0,
        0,
        &property_box(&Property::Amve(a))[8..],
    );
    assert_eq!(Property::parse(&raw_of(&full)).unwrap(), Property::Amve(a));
    let short = boxed(b"cclv", &[0x38, 0, 0]);
    assert!(Property::parse(&raw_of(&short)).is_err());
}

/// ISO/IEC 14496-12 §12.1.6–9 on the wire: plain Boxes (no
/// version / flags), the field widths and order of each clause.
#[test]
fn hdr_boxes_have_the_isobmff_wire_shape() {
    let clli = property_box(&Property::Clli(Clli {
        max_content_light_level: 0x1234,
        max_pic_average_light_level: 0x0056,
    }));
    assert_eq!(&clli[4..8], b"clli");
    assert_eq!(&clli[8..], &[0x12, 0x34, 0x00, 0x56]);
    let mdcv = property_box(&Property::Mdcv(Mdcv {
        display_primaries: [(1, 2), (3, 4), (5, 6)],
        white_point: (7, 8),
        max_luminance: 9,
        min_luminance: 10,
    }));
    assert_eq!(mdcv.len(), 8 + 24);
    assert_eq!(
        &mdcv[8..],
        &[0, 1, 0, 2, 0, 3, 0, 4, 0, 5, 0, 6, 0, 7, 0, 8, 0, 0, 0, 9, 0, 0, 0, 10]
    );
    let cclv = property_box(&Property::Cclv(Cclv {
        cancel: false,
        persistence: false,
        primaries: Some([(1, -1), (2, -2), (3, -3)]),
        min_luminance: None,
        max_luminance: Some(0x0102_0304),
        avg_luminance: Some(7),
    }));
    // flags: primaries (0x20) + max (0x08) + avg (0x04).
    assert_eq!(cclv.len(), 8 + 1 + 24 + 8);
    assert_eq!(cclv[8], 0x2c);
    assert_eq!(&cclv[9..17], &[0, 0, 0, 1, 0xff, 0xff, 0xff, 0xff]);
    assert_eq!(&cclv[33..41], &[1, 2, 3, 4, 0, 0, 0, 7]);
    let amve = property_box(&Property::Amve(Amve {
        ambient_illuminance: 0x0001_0203,
        ambient_light_x: 0x0405,
        ambient_light_y: 0x0607,
    }));
    assert_eq!(amve.len(), 8 + 8);
    assert_eq!(&amve[8..], &[0, 1, 2, 3, 4, 5, 6, 7]);
}

#[test]
fn clap_resolution() {
    // 64x64 coded, 1x1 clean aperture centred at (0,0): the aperture
    // centre is (31.5 + off); with off = -31.5 the left edge is 0.
    let c = Clap {
        width_n: 1,
        width_d: 1,
        height_n: 1,
        height_d: 1,
        horiz_off_n: -63,
        horiz_off_d: 2,
        vert_off_n: -63,
        vert_off_d: 2,
    };
    assert_eq!(
        c.resolve(64, 64).unwrap(),
        CropRect {
            x: 0,
            y: 0,
            width: 1,
            height: 1
        }
    );
    // Centred crop.
    let c = Clap::integer(32, 16, 0, 0);
    assert_eq!(
        c.resolve(64, 64).unwrap(),
        CropRect {
            x: 16,
            y: 24,
            width: 32,
            height: 16
        }
    );
    // for_rect inverts resolve.
    let r = CropRect {
        x: 3,
        y: 5,
        width: 7,
        height: 9,
    };
    assert_eq!(Clap::for_rect(20, 30, r).resolve(20, 30).unwrap(), r);
    // Non-integer edge (centred 31 in 64 → 16.5) is refused.
    assert!(Clap::integer(31, 64, 0, 0).resolve(64, 64).is_err());
    // Out of range.
    assert!(Clap::integer(65, 1, 0, 0).resolve(64, 64).is_err());
    assert!(Clap::integer(1, 1, 100, 0).resolve(64, 64).is_err());
    assert!(Clap {
        width_d: 0,
        ..Clap::integer(1, 1, 0, 0)
    }
    .resolve(4, 4)
    .is_err());
}

#[test]
fn iscl_output_size_uses_ceil() {
    let s = Iscl {
        width_num: 1,
        width_den: 3,
        height_num: 2,
        height_den: 3,
    };
    assert_eq!(s.output_size(100, 100).unwrap(), (34, 67));
    assert!(Iscl { width_num: 0, ..s }.output_size(1, 1).is_err());
}

#[test]
fn descriptive_stops_at_first_transformative_or_unknown() {
    let mk = |p: Property, essential: bool| PropertyEntry {
        index: 1,
        essential,
        property: p,
    };
    let props = ItemProperties {
        entries: vec![
            mk(
                Property::Ispe(Ispe {
                    width: 4,
                    height: 2,
                }),
                false,
            ),
            mk(Property::Irot(Irot { angle: 1 }), true),
            mk(
                Property::Pixi(Pixi {
                    bits_per_channel: vec![8],
                }),
                false,
            ),
            mk(
                Property::Unknown(RawProperty {
                    box_type: *b"zzzz",
                    user_type: None,
                    body: vec![],
                    box_size: 8,
                }),
                true,
            ),
            mk(Property::Imir(Imir { axis: 0 }), true),
        ],
    };
    assert_eq!(props.ispe().unwrap().width, 4);
    assert!(props.pixi().is_none(), "pixi after irot is ignored");
    assert_eq!(props.transformative().len(), 2);
    assert_eq!(props.unsupported_essential(), vec![*b"zzzz"]);
    assert_eq!(props.output_size((4, 2), false).unwrap(), (2, 4));
    assert_eq!(props.output_size((4, 2), true).unwrap(), (2, 4));
    assert_eq!(props.irot().unwrap().angle, 1);
    assert_eq!(props.imir().unwrap().axis, 0);
}

#[test]
fn aux_kind_from_urn() {
    let a = |s: &str| AuxC {
        aux_type: s.into(),
        aux_subtype: vec![],
    };
    assert_eq!(a(AUX_URN_ALPHA).kind(), AuxKind::Alpha);
    assert_eq!(a(AUX_URN_ALPHA_HEVC).kind(), AuxKind::Alpha);
    assert_eq!(a(AUX_URN_DEPTH).kind(), AuxKind::Depth);
    assert_eq!(a(AUX_URN_DEPTH_HEVC).kind(), AuxKind::Depth);
    assert_eq!(a("urn:com:example:x").kind(), AuxKind::Other);
}
