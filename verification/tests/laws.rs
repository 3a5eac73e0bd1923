//! Each law on values of its own.
use oxideav_heif::av1c::Av1Config;
use oxideav_heif::avcc::AvcConfig;
use oxideav_heif::boxes::write::{boxed, full_boxed};
use oxideav_heif::boxes::{parse_box_header, parse_full_box, payload, walk_boxes};
use oxideav_heif::compose::{
    apply_imir, apply_irot, apply_transforms, composite_overlay, crop, fill_to_ycbcr, rescale_depth,
    OverlayInput,
};
use oxideav_heif::demux::cursor::{duration_micros, Cursors, NextPacket};
use oxideav_heif::demux::streams::{codec_id_for_entry, plan_streams};
use oxideav_heif::derived::OverlayDescriptor;
use oxideav_heif::encode::reduce::scale_edge;
use oxideav_heif::encode::{input_frame, packed_to_planar, pad_frame, HeifEncoderOptions, StillCodec};
use oxideav_heif::ftyp::{probe_score, FileType};
use oxideav_heif::gainmap::{
    application_primaries, cicp, gain_channels, tone_mapped_chroma, GainMapMetadata,
};
use oxideav_heif::hvcc::{join_length_prefixed, split_length_prefixed, HevcConfig};
use oxideav_heif::image::core_bridge::{full_range_variant, PixelFormat, VideoFrame};
use oxideav_heif::image::{Chroma, HeifFrame, HeifPixelFormat, HeifPlane};
use oxideav_heif::lhvc::{LhevcConfig, OperatingPoints};
use oxideav_heif::meta::RawProperty;
use oxideav_heif::mux::{HeifSequenceMuxer, MuxPlan};
use oxideav_heif::props::write::property_box;
use oxideav_heif::props::{Colr, Imir, Irot, Iscl, Property, PropertyEntry};
use oxideav_heif::rgb::{matrix_weights, to_rgb};
use oxideav_heif::sequence::table::parse_sample_table;
use oxideav_heif::sequence::{sample_bytes, Movie, Sample, Track};
use oxideav_heif::{HeifError, HeifFile};

fn fmt(chroma: Chroma, depth: u8, alpha: bool) -> HeifPixelFormat {
    HeifPixelFormat::new(chroma, depth, alpha).unwrap()
}

fn ramp(w: u32, h: u32, chroma: Chroma) -> HeifFrame {
    let mut f = HeifFrame::zeroed(w, h, fmt(chroma, 8, false)).unwrap();
    for p in 0..f.format.plane_count() {
        let (pw, ph) = f.plane_dims(p);
        for y in 0..ph {
            for x in 0..pw {
                f.set_sample(p, x, y, (p as u32 * 60 + y * 9 + x) as u16);
            }
        }
    }
    f
}

fn sample(dts: u64, is_sync: bool) -> Sample {
    Sample {
        offset: 0,
        size: 1,
        dts,
        cts_offset: 0,
        duration: 10,
        is_sync,
        description_index: 1,
    }
}

fn track(id: u32, timescale: u32, samples: Vec<Sample>) -> Track {
    Track {
        track_id: id,
        enabled: true,
        in_movie: true,
        handler: *b"pict",
        timescale,
        duration: 0,
        width: 1,
        height: 1,
        matrix: [0x10000, 0, 0, 0, 0x10000, 0, 0, 0, 0x40000000],
        sample_entries: vec![],
        samples,
        references: vec![],
        edits: vec![],
        sample_groups: vec![],
        sample_group_descriptions: vec![],
    }
}

fn movie(tracks: Vec<Track>) -> Movie {
    Movie {
        timescale: 1000,
        duration: 2500,
        tracks,
        producer_reference_times: vec![],
        subsegment_indexes: vec![],
    }
}

#[test]
fn mirroring_twice_gives_the_picture_back() {
    for axis in [0, 1] {
        let f = ramp(5, 3, Chroma::Yuv444);
        let once = apply_imir(&f, &Imir { axis }).unwrap();
        assert_ne!(once, f);
        assert_eq!(apply_imir(&once, &Imir { axis }).unwrap(), f);
    }
}

#[test]
fn turns_add_up() {
    let f = ramp(4, 6, Chroma::Yuv420);
    let turn = |g: &HeifFrame, angle: u8| apply_irot(g, &Irot { angle }).unwrap();
    assert_eq!(turn(&turn(&f, 1), 2), turn(&f, 3));
    assert_eq!(turn(&turn(&f, 3), 1), f);
    // A quarter turn of 4:2:2 needs chroma rows that are not there.
    let g = ramp(4, 6, Chroma::Yuv422);
    assert_eq!(turn(&g, 1).format.chroma, Chroma::Yuv444);
    assert_eq!(turn(&g, 2).format.chroma, Chroma::Yuv422);
}

#[test]
fn mirroring_twice_packs_the_frame() {
    let f = ramp(5, 3, Chroma::Yuv420);
    let mut wide = f.clone();
    for p in 0..3 {
        let (pw, ph) = f.plane_dims(p);
        let mut data = Vec::new();
        for y in 0..ph {
            for x in 0..pw {
                data.push(f.sample(p, x, y) as u8);
            }
            data.extend_from_slice(&[77, 77]);
        }
        wide.planes[p] = HeifPlane {
            stride: pw as usize + 2,
            data,
        };
    }
    let once = apply_imir(&wide, &Imir { axis: 1 }).unwrap();
    assert_eq!((once.width, once.height, once.format), (5, 3, f.format));
    assert_eq!(once.sample(1, 0, 1), f.sample(1, 2, 1));
    let twice = apply_imir(&once, &Imir { axis: 1 }).unwrap();
    assert_eq!(twice, wide.tight());
    assert_ne!(twice, wide);
}

#[test]
fn a_quarter_turn_is_anti_clockwise() {
    for chroma in [Chroma::Mono, Chroma::Yuv420, Chroma::Yuv422, Chroma::Yuv444] {
        for (w, h) in [(4, 6), (5, 3)] {
            let f = ramp(w, h, chroma);
            let g = apply_irot(&f, &Irot { angle: 1 }).unwrap();
            assert_eq!((g.width, g.height), (h, w));
            let (a, b) = (f.promote_to_444().unwrap(), g.promote_to_444().unwrap());
            for p in 0..3 {
                for y in 0..h {
                    for x in 0..w {
                        assert_eq!(b.sample(p, y, w - 1 - x), a.sample(p, x, y));
                    }
                }
            }
        }
    }
}

#[test]
fn a_crop_shows_its_rectangle() {
    for chroma in [Chroma::Yuv420, Chroma::Yuv422] {
        let f = ramp(8, 8, chroma);
        for (x, y, w, h) in [(2, 2, 4, 4), (1, 2, 4, 4), (2, 1, 4, 3)] {
            let g = crop(&f, x, y, w, h).unwrap();
            let odd = x % 2 == 1 || (chroma == Chroma::Yuv420 && y % 2 == 1);
            assert_eq!(g.format.chroma, if odd { Chroma::Yuv444 } else { chroma });
            let (a, b) = (f.promote_to_444().unwrap(), g.promote_to_444().unwrap());
            for p in 0..3 {
                for j in 0..h {
                    for i in 0..w {
                        assert_eq!(b.sample(p, i, j), a.sample(p, x + i, y + j));
                    }
                }
            }
        }
        assert!(crop(&f, 5, 0, 4, 1).is_err());
        assert!(crop(&f, u32::MAX, 0, 2, 1).is_err());
        assert!(crop(&f, 0, 0, 0, 1).is_err());
    }
}

#[test]
fn chains_of_transforms_compose() {
    let entry = |property: Property, essential: bool| PropertyEntry {
        property,
        essential,
        index: 1,
    };
    let turn = entry(Property::Irot(Irot { angle: 1 }), true);
    let flip = entry(Property::Imir(Imir { axis: 0 }), false);
    let scale = entry(
        Property::Iscl(Iscl {
            width_num: 1,
            width_den: 2,
            height_num: 1,
            height_den: 2,
        }),
        true,
    );
    let f = ramp(4, 6, Chroma::Yuv420);
    let first = apply_transforms(&f, &[&turn], false).unwrap();
    assert_eq!(
        apply_transforms(&f, &[&turn, &flip], false).unwrap(),
        apply_transforms(&first, &[&flip], false).unwrap()
    );
    assert_eq!(apply_transforms(&f, &[], false).unwrap(), f);
    assert_eq!(apply_transforms(&f, &[&flip], true).unwrap(), f);
    assert_ne!(apply_transforms(&f, &[&flip], false).unwrap(), f);
    assert!(matches!(
        apply_transforms(&f, &[&flip, &scale], false),
        Err(HeifError::Unsupported(_))
    ));
}

#[test]
fn widening_then_narrowing_is_lossless() {
    let f = ramp(4, 2, Chroma::Yuv444);
    for depth in [8, 10, 12, 16] {
        let wide = rescale_depth(&f, depth).unwrap();
        assert_eq!(wide.sample(2, 3, 1), f.sample(2, 3, 1) << (depth - 8));
        assert_eq!(rescale_depth(&wide, 8).unwrap(), f);
    }
    assert!(matches!(
        rescale_depth(&f, 17),
        Err(HeifError::Unsupported(_))
    ));
}

#[test]
fn a_nearly_opaque_fill_is_opaque_at_eight_bits() {
    let f = ramp(4, 4, Chroma::Yuv444);
    let desc = |alpha: u16| OverlayDescriptor {
        canvas_fill: [0, 0, 0, alpha],
        output_width: 4,
        output_height: 4,
        offsets: vec![(0, 0)],
    };
    let composed = |alpha: u16| {
        let input = OverlayInput {
            frame: &f,
            premultiplied: false,
        };
        composite_overlay(&desc(alpha), &[input], None).unwrap()
    };
    assert!(!composed(65534).format.has_alpha);
    assert!(composed(60000).format.has_alpha);
}

#[test]
fn alpha_off_the_canvas_is_not_read() {
    let fmt = fmt(Chroma::Mono, 10, true);
    let mut f = HeifFrame::zeroed(2, 1, fmt).unwrap();
    f.set_sample(1, 0, 0, 1023);
    f.set_sample(1, 1, 0, 2000);
    f.set_sample(0, 0, 0, 600);
    let desc = OverlayDescriptor {
        canvas_fill: [0, 0, 0, 65535],
        output_width: 1,
        output_height: 1,
        offsets: vec![(0, 0)],
    };
    let input = OverlayInput {
        frame: &f,
        premultiplied: false,
    };
    let out = composite_overlay(&desc, &[input], None).unwrap();
    assert_eq!(out.sample(0, 0, 0), 600);
}

#[test]
fn reduced_edges_are_quotients_of_doubles() {
    assert_eq!(scale_edge(18, 18, 7), 7);
    // Half way between 3 and 4, but 18/7 is rounded up.
    assert_eq!(scale_edge(9, 18, 7), 3);
    assert_eq!(scale_edge(5, 10, 3), 2);
    assert_eq!(scale_edge(1, 1 << 30, 5), 1);
    for longest in 2..90u32 {
        for limit in 1..longest {
            assert_eq!(scale_edge(longest, longest, limit), limit);
            for v in 1..=longest {
                let scale = longest as f64 / limit as f64;
                let edge = ((v as f64 / scale).round() as u32).max(1);
                assert_eq!(scale_edge(v, longest, limit), edge);
            }
        }
    }
    for longest in [0x4000_0000u32, 0x3fff_ffff, 1_000_003, 65_535] {
        for limit in [1, 7, 320, 49_999] {
            for v in [1, 2, 12_345, longest / 2, longest / 3, longest - 1, longest] {
                let scale = longest as f64 / limit as f64;
                let edge = ((v.min(longest) as f64 / scale).round() as u32).max(1);
                assert_eq!(scale_edge(v.min(longest), longest, limit), edge);
            }
        }
    }
}

#[test]
fn prefixes_of_every_width_read_back() {
    let units: Vec<&[u8]> = vec![&[1, 2, 3], &[4], &[5, 6]];
    for n in 1..=4 {
        let joined = join_length_prefixed(&units, n).unwrap();
        assert_eq!(joined.len(), 6 + 3 * n as usize);
        assert_eq!(split_length_prefixed(&joined, n).unwrap(), units);
    }
    assert!(split_length_prefixed(&[0, 0], 3).is_err());
    assert!(split_length_prefixed(&[0, 0, 2, 1], 3).is_err());
    assert!(split_length_prefixed(&[0, 0, 0, 1], 3).is_err());
    assert!(split_length_prefixed(&[1, 2], 5).is_err());
}

#[test]
fn a_part_of_a_part_is_a_part_of_the_whole() {
    let f = ramp(12, 10, Chroma::Yuv420);
    let part = crop(&f, 2, 2, 8, 6).unwrap();
    assert_eq!(crop(&part, 2, 4, 4, 2).unwrap(), crop(&f, 4, 6, 4, 2).unwrap());
}

#[test]
fn padding_is_cut_off_again() {
    let f = ramp(6, 4, Chroma::Yuv420);
    let wide = pad_frame(&f, 16, 16).unwrap();
    assert_eq!((wide.width, wide.height), (16, 16));
    assert_eq!(crop(&wide, 0, 0, 6, 4).unwrap(), f);
    assert!(matches!(pad_frame(&f, 0, 4), Err(HeifError::InvalidData(_))));
    assert!(matches!(
        pad_frame(&f, 1 << 20, 1 << 20),
        Err(HeifError::ResourceExhausted(_))
    ));
}

#[test]
fn setting_a_sample_changes_no_other() {
    let mut f = ramp(4, 4, Chroma::Yuv444);
    let before = f.clone();
    f.set_sample(1, 2, 3, 255);
    assert_eq!(f.sample(1, 2, 3), 255);
    for p in 0..3 {
        for y in 0..4 {
            for x in 0..4 {
                if (p, x, y) != (1, 2, 3) {
                    assert_eq!(f.sample(p, x, y), before.sample(p, x, y));
                }
            }
        }
    }
}

#[test]
fn boxes_read_back() {
    let mut buf = boxed(b"free", &[1]);
    let at = buf.len();
    buf.extend(boxed(b"abcd", &[7, 8, 9]));
    let end = buf.len();
    buf.extend(full_boxed(b"efgh", 3, 0x12_3456, &[5]));
    let h = parse_box_header(&buf, at).unwrap();
    assert_eq!((h.box_type, h.end()), (*b"abcd", end));
    assert_eq!(payload(&buf, &h), &[7, 8, 9]);
    let h = parse_box_header(&buf, end).unwrap();
    assert_eq!(
        parse_full_box(payload(&buf, &h)).unwrap(),
        (3, 0x12_3456, &[5u8][..])
    );
    let mut body = vec![9u8; 16];
    body.push(4);
    let buf = boxed(b"uuid", &body);
    let h = parse_box_header(&buf, 0).unwrap();
    assert_eq!(h.user_type, Some([9; 16]));
    assert_eq!(payload(&buf, &h), &[4]);
}

#[test]
fn a_walk_tiles_the_file() {
    let inner = boxed(b"tkhd", &[1, 2, 3]);
    let trak = boxed(b"trak", &inner);
    let mut moov = boxed(b"mvhd", &[9; 5]);
    moov.extend_from_slice(&trak);
    let mut file = boxed(b"free", &[0; 3]);
    file.extend_from_slice(&boxed(b"moov", &moov));
    file.extend_from_slice(&boxed(b"mdat", &[7; 9]));
    let w = walk_boxes(&file, 8, 64).unwrap();
    let depths: Vec<usize> = w.iter().map(|e| e.depth).collect();
    assert_eq!(depths, vec![0, 0, 1, 1, 2, 0]);
    let mut end = 0;
    for (i, e) in w.iter().enumerate() {
        if e.depth == 0 {
            assert_eq!(e.header.start, end);
            end = e.header.end();
        } else {
            let above = w[..i].iter().rev().find(|p| p.depth == e.depth - 1).unwrap();
            assert!(above.header.payload_start <= e.header.start);
            assert!(e.header.end() <= above.header.end());
        }
    }
    assert_eq!(end, file.len());
}

#[test]
fn a_file_type_probes_by_its_brands() {
    let ft = |brands: Vec<[u8; 4]>| FileType {
        box_type: *b"ftyp",
        major_brand: *b"isom",
        minor_version: 7,
        compatible_brands: brands,
    };
    assert_eq!(probe_score(&ft(vec![*b"mp42", *b"avif"]).to_box()), 100);
    assert_eq!(probe_score(&ft(vec![*b"mp42"]).to_box()), 0);
    assert_eq!(
        ft(vec![*b"mp42", *b"isom", *b"mp42"]).all_brands(),
        vec![*b"isom", *b"mp42"]
    );
}

fn raw(box_type: [u8; 4], body: &[u8]) -> RawProperty {
    RawProperty {
        box_type,
        user_type: None,
        body: body.to_vec(),
        box_size: body.len() + 8,
    }
}

/// The property in the box of a property.
fn again(p: &Property) -> Property {
    let bytes = property_box(p);
    let h = parse_box_header(&bytes, 0).unwrap();
    Property::parse(&RawProperty {
        box_type: h.box_type,
        user_type: h.user_type,
        body: payload(&bytes, &h).to_vec(),
        box_size: h.total_len(),
    })
    .unwrap()
}

#[test]
fn what_parses_parses_again() {
    for (t, body) in [
        (*b"irot", vec![0xff]),
        (*b"imir", vec![0x03]),
        (*b"pixi", vec![0, 0, 0, 0, 2, 8, 10, 99]),
        (*b"colr", b"nclx\0\x01\0\x0d\0\x06\xff".to_vec()),
        (*b"a1lx", vec![0, 0, 1, 0, 2, 0, 3]),
    ] {
        let p = Property::parse(&raw(t, &body)).unwrap();
        assert_eq!(again(&p), p);
    }
    // A record is written with the bytes it was read from.
    for (t, body) in [
        (*b"avcC", vec![1, 66, 0, 30, 0x03, 0x01, 0, 2, 0x67, 0x42, 1, 0, 1, 0x68]),
        (*b"lhvC", vec![1, 0, 5, 0, 0x0b, 0]),
        (*b"oinf", vec![0, 0, 0, 0, 0, 4, 0xc0, 0, 0, 1, 9, 0, 33]),
        (*b"udes", b"\0\0\0\0e\xffn\0a\0b\0c".to_vec()),
        (*b"auxC", b"\0\0\0\0urn\xfe\0\x01".to_vec()),
    ] {
        let p = Property::parse(&raw(t, &body)).unwrap();
        assert_eq!(again(&p), p);
    }
    // Serializing the fields sets the reserved bits.
    let avc = [1, 66, 0, 30, 0x03, 0x01, 0, 2, 0x67, 0x42, 1, 0, 1, 0x68];
    let c = AvcConfig::parse(&avc).unwrap();
    let back = AvcConfig::parse(&c.serialize()).unwrap();
    assert_eq!(back.serialize(), c.serialize());
    assert_eq!(
        AvcConfig {
            raw: c.raw.clone(),
            ..back.clone()
        },
        c
    );
    assert_ne!(back.raw, c.raw);
    let l = LhevcConfig::parse(&[1, 0, 5, 0, 0x0b, 0]).unwrap();
    let back = LhevcConfig::parse(&l.serialize()).unwrap();
    assert_eq!(back.serialize(), l.serialize());
    assert_eq!(back.min_spatial_segmentation_idc, 5);
    let o = OperatingPoints::parse(&[0, 4, 0, 0, 0, 1, 9, 0, 33]).unwrap();
    assert_eq!(o.layers[0].dimension_identifiers, vec![(2, 33)]);
    assert_eq!(
        OperatingPoints::parse(&o.serialize()).unwrap().serialize(),
        o.serialize()
    );
    let a = Av1Config::parse(&[0x81, 0x20, 0xff, 0xe5, 1]).unwrap();
    let back = Av1Config::parse(&a.serialize()).unwrap();
    assert_eq!(back.serialize(), a.serialize());
    let mut h = vec![1u8; 22];
    h.push(0);
    let h = HevcConfig::parse(&h).unwrap();
    let back = HevcConfig::parse(&h.serialize()).unwrap();
    assert_eq!(back.serialize(), h.serialize());
    let mut t = vec![0u8, 0, 0, 0, 9, 0xc0];
    for _ in 0..17 {
        t.extend_from_slice(&[0, 0, 0, 1, 0, 0, 0, 2]);
    }
    let m = GainMapMetadata::parse_tmap_body(&t).unwrap();
    assert!(m.is_multichannel && m.use_base_colour_space);
    assert_eq!(
        GainMapMetadata::parse_tmap_body(&m.serialize_tmap_body()).unwrap(),
        m
    );
    assert!(matches!(
        GainMapMetadata::parse_tmap_body(&[1]),
        Err(HeifError::Unsupported(_))
    ));
}

#[test]
fn layouts_come_back_from_the_framework() {
    for chroma in [Chroma::Mono, Chroma::Yuv420, Chroma::Yuv422, Chroma::Yuv444] {
        for depth in [8, 10, 12, 16] {
            for alpha in [false, true] {
                let f = fmt(chroma, depth, alpha);
                if let Some(pf) = f.to_core() {
                    assert_eq!(HeifPixelFormat::from_core(pf), Some(f));
                }
            }
        }
    }
    assert_eq!(full_range_variant(PixelFormat::Yuv422P), PixelFormat::YuvJ422P);
    assert_eq!(full_range_variant(PixelFormat::Gray8), PixelFormat::Gray8);
}

fn fill_in_doubles(fill: [u16; 3], depth: u32, kr: f64, kb: f64, full: bool) -> [u16; 3] {
    let max = ((1u32 << depth) - 1) as f64;
    let (r, g, b) = (
        fill[0] as f64 / 65535.0,
        fill[1] as f64 / 65535.0,
        fill[2] as f64 / 65535.0,
    );
    let code = |v: f64| v.round().clamp(0.0, max) as u16;
    let kg = 1.0 - kr - kb;
    let y = kr * r + kg * g + kb * b;
    let cb = (b - y) / (2.0 * (1.0 - kb));
    let cr = (r - y) / (2.0 * (1.0 - kr));
    let mid = (1u32 << (depth - 1)) as f64;
    let sh = (1u32 << (depth - 8)) as f64;
    if full {
        [code(y * max), code(cb * max + mid), code(cr * max + mid)]
    } else {
        [
            code((219.0 * y + 16.0) * sh),
            code((224.0 * cb + 128.0) * sh),
            code((224.0 * cr + 128.0) * sh),
        ]
    }
}

#[test]
fn fill_colours_are_computed_in_doubles() {
    let nclx = |matrix: u16, full_range: bool| Colr::Nclx {
        primaries: 1,
        transfer: 1,
        matrix,
        full_range,
    };
    // The exact values are half way between two codes.
    assert_eq!(fill_to_ycbcr([65535, 65535, 0], 8, None), [226, 0, 149]);
    assert_eq!(fill_to_ycbcr([0, 0, 64250], 8, None), [29, 253, 108]);
    assert_eq!(fill_to_ycbcr([0, 39835, 65535], 8, Some(&nclx(4, true))), [119, 204, 43]);
    assert_eq!(fill_to_ycbcr([15934, 65535, 65535], 8, Some(&nclx(1, true))), [214, 150, 31]);
    assert_eq!(
        fill_to_ycbcr([6859, 0, 54080], 16, Some(&nclx(4, true))),
        [8006, 58652, 31948]
    );
    let edges: [u16; 12] = [
        0, 1, 2, 255, 257, 13364, 21845, 32767, 32768, 51914, 64250, 65535,
    ];
    for (matrix, kr, kb) in [
        (1, 0.2126, 0.0722),
        (4, 0.30, 0.11),
        (6, 0.299, 0.114),
        (7, 0.212, 0.087),
        (10, 0.2627, 0.0593),
        (99, 0.299, 0.114),
    ] {
        for full in [true, false] {
            let colr = nclx(matrix, full);
            for depth in [8u8, 10, 16] {
                for r in edges {
                    for g in edges {
                        for b in edges {
                            let fill = [r, g, b];
                            assert_eq!(
                                fill_to_ycbcr(fill, depth, Some(&colr)),
                                fill_in_doubles(fill, depth as u32, kr, kb, full)
                            );
                        }
                    }
                }
            }
        }
    }
}

#[test]
fn grey_fills_have_middle_chroma() {
    for matrix in [1, 4, 6, 7, 9] {
        for full_range in [true, false] {
            let colr = Colr::Nclx {
                primaries: 1,
                transfer: 1,
                matrix,
                full_range,
            };
            for depth in [8u8, 12, 16] {
                let (max, sh) = ((1u64 << depth) - 1, 1u64 << (depth - 8));
                for c in [0u16, 1, 127, 128, 16384, 32768, 43690, 65534, 65535] {
                    let n = if full_range {
                        c as u64 * max
                    } else {
                        (219 * c as u64 + 16 * 65535) * sh
                    };
                    let luma = ((2 * n + 65535) / 131070) as u16;
                    let mid = 1u16 << (depth - 1);
                    assert_eq!(
                        fill_to_ycbcr([c, c, c], depth, Some(&colr)),
                        [luma, mid, mid]
                    );
                }
            }
        }
    }
}

#[test]
fn neutral_chroma_is_grey() {
    for matrix in [1, 5, 6, 7, 9] {
        let colr = Colr::Nclx {
            primaries: 1,
            transfer: 1,
            matrix,
            full_range: false,
        };
        let mut f = HeifFrame::filled(1, 1, fmt(Chroma::Yuv444, 8, false), 128).unwrap();
        f.set_sample(0, 0, 0, 90);
        let out = to_rgb(&f, Some(&colr)).unwrap();
        assert_eq!(out.sample(0, 0, 0), out.sample(0, 0, 1));
        assert_eq!(out.sample(0, 0, 1), out.sample(0, 0, 2));
    }
    assert_eq!(matrix_weights(9), Some((2627, 593)));
    assert_eq!(matrix_weights(0), None);
}

#[test]
fn packed_pixels_become_planes() {
    let frame = VideoFrame {
        pts: None,
        planes: vec![HeifPlane {
            stride: 8,
            data: vec![255, 0, 0, 9, 0, 0, 255, 200],
        }],
    };
    let colr = Colr::miaf_default();
    let rgba = packed_to_planar(&frame, 2, 1, PixelFormat::Rgba, &colr).unwrap();
    assert_eq!(rgba.format, fmt(Chroma::Yuv444, 8, true));
    // Pure red and pure blue, BT.601 full range.
    assert_eq!(
        (rgba.sample(0, 0, 0), rgba.sample(1, 0, 0), rgba.sample(2, 0, 0)),
        (76, 85, 255)
    );
    assert_eq!(rgba.sample(1, 1, 0), 255);
    assert_eq!((rgba.sample(3, 0, 0), rgba.sample(3, 1, 0)), (9, 200));
    let bgra = packed_to_planar(&frame, 2, 1, PixelFormat::Bgra, &colr).unwrap();
    assert_eq!(bgra.sample(2, 1, 0), 255);
    assert!(matches!(
        packed_to_planar(&frame, 3, 1, PixelFormat::Rgba, &colr),
        Err(HeifError::InvalidData(_))
    ));
    assert!(matches!(
        packed_to_planar(&frame, 1, 1, PixelFormat::Yuv420P, &colr),
        Err(HeifError::Unsupported(_))
    ));
}

#[test]
fn encoder_settings_describe_options() {
    let o = HeifEncoderOptions {
        codec: "av1".to_string(),
        qp: 99,
        grid: 128,
        range: "limited".to_string(),
        rd: 3,
        ..HeifEncoderOptions::default()
    }
    .to_encode_options()
    .unwrap();
    assert_eq!(o.codec, StillCodec::Av1);
    assert_eq!((o.qp, o.grid_tile, o.thumbnail_max_dim), (51, Some(128), None));
    assert_eq!((o.av1_quality, o.hevc_rd), (Some(60), None));
    assert!(matches!(
        o.colr,
        Colr::Nclx {
            full_range: false,
            ..
        }
    ));
    let bad = HeifEncoderOptions {
        codec: "jpeg".to_string(),
        ..HeifEncoderOptions::default()
    };
    assert!(bad.to_encode_options().is_err());
}

#[test]
fn gain_map_spaces_and_channels() {
    let wide = Colr::Nclx {
        primaries: 9,
        transfer: 16,
        matrix: 9,
        full_range: true,
    };
    assert_eq!(cicp(Some(&wide)), (9, 16));
    assert_eq!(cicp(None), (1, 13));
    let mut t = vec![0u8, 0, 0, 0, 0, 0];
    for _ in 0..7 {
        t.extend_from_slice(&[0, 0, 0, 1, 0, 0, 0, 2]);
    }
    let m = GainMapMetadata::parse_tmap_body(&t).unwrap();
    assert_eq!(application_primaries(&m, None, Some(&wide)), 9);
    assert_eq!(application_primaries(&m, None, None), 1);
    assert_eq!(gain_channels(Chroma::Mono, &m), 1);
    assert_eq!(gain_channels(Chroma::Yuv420, &m), 3);
    assert_eq!(
        tone_mapped_chroma(Chroma::Mono, Chroma::Yuv420),
        Chroma::Yuv444
    );
}

#[test]
fn packets_come_in_decode_order() {
    let m = movie(vec![
        track(1, 10, vec![sample(0, true), sample(10, true)]),
        track(2, 100, vec![sample(0, true), sample(50, false)]),
    ]);
    let mut c = Cursors::new(Some(0), &[(1, 0), (2, 1)]);
    let mut seen = Vec::new();
    loop {
        match c.next(Some(&m)) {
            NextPacket::Still(s) => seen.push(s),
            NextPacket::Sample(i) => {
                seen.push(c.tracks[i].stream);
                c.advance(i);
            }
            NextPacket::End => break,
        }
    }
    // At equal times the first stream goes first; 50 / 100 is before 10 / 10.
    assert_eq!(seen, [0, 1, 2, 2, 1]);
    c.set_active(&[2]);
    assert_eq!(c.seek_to(2, 1000, Some(&m)).unwrap(), 0);
    assert_eq!(c.next(Some(&m)), NextPacket::Sample(1));
    assert!(matches!(
        c.seek_to(7, 0, Some(&m)),
        Err(HeifError::InvalidData(_))
    ));
    assert_eq!(duration_micros(&m), Some(2_500_000));
}

#[test]
fn packets_carry_the_bytes_and_times_of_their_samples() {
    let mut bytes = boxed(b"ftyp", b"heic\0\0\0\0mif1");
    bytes.extend(boxed(b"mdat", &[1, 2, 3, 4]));
    let file = HeifFile::parse(&bytes).unwrap();
    let end = bytes.len() as u64;
    let first = Sample {
        offset: end - 4,
        size: 3,
        cts_offset: 7,
        ..sample(5, true)
    };
    let outside = Sample {
        offset: end,
        ..sample(15, false)
    };
    let m = movie(vec![track(1, 0, vec![first, outside])]);
    let mut c = Cursors::new(Some(0), &[(1, 0)]);
    let still = c.next_packet(&file, Some(&m)).unwrap().unwrap();
    assert_eq!((still.stream, still.timescale, still.duration), (0, 1, 1));
    assert_eq!(still.data, bytes);
    let p = c.next_packet(&file, Some(&m)).unwrap().unwrap();
    assert_eq!((p.stream, p.timescale, p.data), (1, 1, vec![1, 2, 3]));
    assert_eq!((p.pts, p.dts, p.duration, p.keyframe), (12, 5, 10, true));
    assert!(matches!(
        c.next_packet(&file, Some(&m)),
        Err(HeifError::InvalidData(_))
    ));
    assert_eq!(c.tracks[0].cursor, 1);
    c.advance(0);
    assert_eq!(c.next_packet(&file, Some(&m)).unwrap(), None);
}

#[test]
fn frames_come_in_planar_or_packed() {
    let colr = Colr::miaf_default();
    let plane = || VideoFrame {
        pts: None,
        planes: vec![HeifPlane {
            stride: 4,
            data: vec![9, 8, 7, 6],
        }],
    };
    let grey = input_frame(&plane(), Some(4), Some(1), Some(PixelFormat::Gray8), &colr).unwrap();
    assert_eq!((grey.sample(0, 0, 0), grey.sample(0, 3, 0)), (9, 6));
    let rgba = input_frame(&plane(), Some(1), Some(1), Some(PixelFormat::Rgba), &colr).unwrap();
    assert_eq!(rgba.sample(3, 0, 0), 6);
    for (w, h, pf) in [
        (None, Some(1), Some(PixelFormat::Gray8)),
        (Some(0), Some(1), Some(PixelFormat::Gray8)),
        (Some(1), Some(1), None),
    ] {
        assert!(matches!(
            input_frame(&plane(), w, h, pf, &colr),
            Err(HeifError::InvalidData(_))
        ));
    }
}

#[test]
fn a_seek_lands_on_the_last_sync_sample() {
    let m = movie(vec![track(
        1,
        10,
        vec![
            sample(0, true),
            sample(10, false),
            sample(20, true),
            sample(30, false),
            sample(40, true),
        ],
    )]);
    let mut c = Cursors::new(None, &[(0, 0)]);
    assert_eq!(c.seek_to(0, 35, Some(&m)).unwrap(), 20);
    assert_eq!(c.tracks[0].cursor, 2);
    assert_eq!(c.seek_to(0, -5, Some(&m)).unwrap(), 0);
}

#[test]
fn a_sample_table_places_its_samples() {
    let words = |v: &[u32]| -> Vec<u8> { v.iter().flat_map(|x| x.to_be_bytes()).collect() };
    let mut stbl = full_boxed(b"stts", 0, 0, &words(&[1, 3, 5]));
    stbl.extend(full_boxed(b"stsc", 0, 0, &words(&[1, 1, 2, 1])));
    stbl.extend(full_boxed(b"stsz", 0, 0, &words(&[0, 3, 4, 6, 8])));
    stbl.extend(full_boxed(b"stco", 0, 0, &words(&[2, 100, 200])));
    stbl.extend(full_boxed(b"stss", 0, 0, &words(&[1, 2])));
    let t = parse_sample_table(&stbl, 1000).unwrap();
    let shape: Vec<(u64, u32, u64, bool)> = t
        .iter()
        .map(|s| (s.offset, s.size, s.dts, s.is_sync))
        .collect();
    assert_eq!(
        shape,
        [
            (100, 4, 0, false),
            (104, 6, 5, true),
            (200, 8, 10, false)
        ]
    );
    assert!(parse_sample_table(&stbl, 207).is_err());
}

#[test]
fn samples_are_bytes_of_their_file() {
    let mut bytes = boxed(b"ftyp", b"heic\0\0\0\0mif1");
    bytes.extend(boxed(b"mdat", &[1, 2, 3, 4]));
    let f = HeifFile::parse(&bytes).unwrap();
    let s = Sample {
        offset: bytes.len() as u64 - 2,
        size: 2,
        ..sample(0, true)
    };
    assert_eq!(sample_bytes(&f, &s).unwrap(), &[3, 4]);
    let out = Sample { size: 3, ..s };
    assert!(sample_bytes(&f, &out).is_err());
    let none = plan_streams(&f, None, &[]);
    assert!(matches!(none, Err(HeifError::Unsupported(_))));
    assert_eq!(codec_id_for_entry(b"hev1"), Some("h265"));
    assert_eq!(codec_id_for_entry(b"jpeg"), None);
}

#[test]
fn reframed_samples_keep_their_units() {
    let units: Vec<&[u8]> = vec![&[0x26, 1, 7], &[0x28, 1]];
    let short = join_length_prefixed(&units, 2).unwrap();
    let mut record = vec![1u8; 21];
    record.extend_from_slice(&[0x0d, 0]);
    let mut m = HeifSequenceMuxer::new("h265", &record, Some(64), Some(48)).unwrap();
    assert!(m.is_empty());
    m.push(&short, Some(4), true).unwrap();
    m.push(&short, None, false).unwrap();
    assert!(!m.is_empty());
    assert!(m.push(&[0, 9, 1], None, false).is_err());
    match m.finish().unwrap() {
        MuxPlan::Sequence(s) => {
            assert_eq!((s.width, s.height), (64, 48));
            assert_eq!(s.samples.len(), 2);
            assert_eq!(
                split_length_prefixed(&s.samples[0].data, 4).unwrap(),
                units
            );
            assert_eq!((s.samples[0].duration, s.samples[0].is_sync), (4, true));
            assert_eq!((s.samples[1].duration, s.samples[1].is_sync), (1, false));
            assert!(s.cover.is_some());
        }
        other => panic!("{other:?}"),
    }
}

#[test]
fn a_still_stream_is_one_file() {
    let file = boxed(b"ftyp", b"heic\0\0\0\0mif1");
    let mut m = HeifSequenceMuxer::new("heif", &[], None, None).unwrap();
    assert!(m.push(&[1, 2, 3], None, true).is_err());
    m.push(&file, None, true).unwrap();
    assert!(m.push(&file, None, true).is_err());
    assert!(matches!(m.finish().unwrap(), MuxPlan::Still(b) if b == &file[..]));
    assert!(matches!(
        HeifSequenceMuxer::new("mpeg2", &[], None, None),
        Err(HeifError::Unsupported(_))
    ));
}
