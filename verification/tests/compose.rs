use oxideav_heif::compose::{
    apply_clap, apply_imir, apply_irot, apply_transforms, attach_alpha, composite_grid,
    composite_overlay, crop, fill_to_ycbcr, rescale_depth, OverlayInput,
};
use oxideav_heif::derived::{GridDescriptor, OverlayDescriptor};
use oxideav_heif::image::{Chroma, HeifFrame, HeifPixelFormat};
use oxideav_heif::props::{Clap, Colr, Imir, Irot, Iscl, Property, PropertyEntry};

fn fmt(chroma: Chroma, depth: u8, alpha: bool) -> HeifPixelFormat {
    HeifPixelFormat::new(chroma, depth, alpha).unwrap()
}

/// A 4×4 4:4:4 8-bit frame whose luma is `y * 16 + x`.
fn ramp(w: u32, h: u32, chroma: Chroma) -> HeifFrame {
    let mut f = HeifFrame::zeroed(w, h, fmt(chroma, 8, false)).unwrap();
    for y in 0..h {
        for x in 0..w {
            f.set_sample(0, x, y, (y * 16 + x) as u16);
        }
    }
    if chroma != Chroma::Mono {
        let (cw, ch) = f.plane_dims(1);
        for y in 0..ch {
            for x in 0..cw {
                f.set_sample(1, x, y, (100 + y * 16 + x) as u16);
                f.set_sample(2, x, y, (200 + y * 16 + x) as u16);
            }
        }
    }
    f
}

#[test]
fn crop_even_keeps_chroma_layout_odd_promotes() {
    let f = ramp(8, 8, Chroma::Yuv420);
    let c = crop(&f, 2, 4, 4, 2).unwrap();
    assert_eq!(c.format.chroma, Chroma::Yuv420);
    assert_eq!(c.sample(0, 0, 0), 4 * 16 + 2);
    assert_eq!(c.sample(1, 0, 0), 100 + 2 * 16 + 1);
    let o = crop(&f, 1, 0, 3, 3).unwrap();
    assert_eq!(o.format.chroma, Chroma::Yuv444);
    assert_eq!(o.sample(0, 0, 0), 1);
    assert_eq!(o.sample(1, 0, 0), 100, "chroma replicated from (0,0)");
    assert!(crop(&f, 7, 0, 2, 2).is_err());
}

#[test]
fn clap_1x1_from_64x64() {
    let f = ramp(64, 64, Chroma::Yuv420);
    let c = Clap {
        width_n: 1,
        width_d: 1,
        height_n: 1,
        height_d: 1,
        horiz_off_n: -63,
        horiz_off_d: 2,
        vert_off_n: -63,
        vert_off_d: 2,
    };
    let out = apply_clap(&f, &c).unwrap();
    assert_eq!((out.width, out.height), (1, 1));
    assert_eq!(out.sample(0, 0, 0), 0);
}

#[test]
fn rotation_and_mirroring() {
    let f = ramp(4, 2, Chroma::Yuv444);
    let r = apply_irot(&f, &Irot { angle: 1 }).unwrap();
    assert_eq!((r.width, r.height), (2, 4));
    // Anti-clockwise 90°: the top-right source pixel (3,0) lands at
    // the top-left (0,0); (0,0) lands at the bottom-left (0,3).
    assert_eq!(r.sample(0, 0, 0), 3);
    assert_eq!(r.sample(0, 0, 3), 0);
    assert_eq!(r.sample(0, 1, 0), 16 + 3);
    let r2 = apply_irot(&f, &Irot { angle: 2 }).unwrap();
    assert_eq!(r2.sample(0, 0, 0), 16 + 3);
    let r3 = apply_irot(&f, &Irot { angle: 3 }).unwrap();
    assert_eq!(r3.sample(0, 0, 0), 16);
    assert_eq!(r3.sample(0, 1, 3), 3);
    // Four quarter turns are the identity.
    let mut q = f.clone();
    for _ in 0..4 {
        q = apply_irot(&q, &Irot { angle: 1 }).unwrap();
    }
    assert_eq!(q, f);
    let v = apply_imir(&f, &Imir { axis: 0 }).unwrap();
    assert_eq!(v.sample(0, 0, 0), 16);
    let h = apply_imir(&f, &Imir { axis: 1 }).unwrap();
    assert_eq!(h.sample(0, 0, 0), 3);
    assert_eq!(h.sample(2, 0, 1), 200 + 16 + 3);
    // Odd 4:2:0 rotation promotes to 4:4:4.
    let odd = ramp(3, 2, Chroma::Yuv420);
    let ro = apply_irot(&odd, &Irot { angle: 1 }).unwrap();
    assert_eq!(ro.format.chroma, Chroma::Yuv444);
    assert_eq!((ro.width, ro.height), (2, 3));
    // 16-bit horizontal mirror.
    let mut deep = HeifFrame::zeroed(3, 1, fmt(Chroma::Mono, 10, false)).unwrap();
    deep.set_sample(0, 0, 0, 1000);
    deep.set_sample(0, 2, 0, 7);
    let m = apply_imir(&deep, &Imir { axis: 1 }).unwrap();
    assert_eq!(m.sample(0, 0, 0), 7);
    assert_eq!(m.sample(0, 2, 0), 1000);
}

#[test]
fn transform_chain_order_and_essential_filter() {
    let f = ramp(4, 2, Chroma::Yuv444);
    let chain = vec![
        PropertyEntry {
            index: 1,
            essential: true,
            property: Property::Irot(Irot { angle: 1 }),
        },
        PropertyEntry {
            index: 2,
            essential: false,
            property: Property::Imir(Imir { axis: 1 }),
        },
    ];
    let links: Vec<&PropertyEntry> = chain.iter().collect();
    let all = apply_transforms(&f, &links, false).unwrap();
    assert_eq!((all.width, all.height), (2, 4));
    assert_eq!(all.sample(0, 0, 0), 16 + 3);
    let ess = apply_transforms(&f, &links, true).unwrap();
    assert_eq!(ess.sample(0, 0, 0), 3);
    let iscl = vec![PropertyEntry {
        index: 1,
        essential: true,
        property: Property::Iscl(Iscl {
            width_num: 1,
            width_den: 2,
            height_num: 1,
            height_den: 2,
        }),
    }];
    assert!(apply_transforms(&f, &[&iscl[0]], false).is_err());
}

#[test]
fn grid_assembles_row_major_and_trims() {
    let mk = |v: u16| HeifFrame::filled(2, 2, fmt(Chroma::Yuv420, 8, false), v).unwrap();
    let tiles = [mk(1), mk(2), mk(3), mk(4)];
    let d = GridDescriptor {
        rows: 2,
        columns: 2,
        output_width: 3,
        output_height: 4,
    };
    let g = composite_grid(&d, &tiles).unwrap();
    assert_eq!((g.width, g.height), (3, 4));
    assert_eq!(g.format.chroma, Chroma::Yuv444, "odd output width promotes");
    assert_eq!(g.sample(0, 0, 0), 1);
    assert_eq!(g.sample(0, 2, 0), 2);
    assert_eq!(g.sample(0, 0, 3), 3);
    assert_eq!(g.sample(0, 2, 3), 4);
    let d4 = GridDescriptor {
        output_width: 4,
        output_height: 4,
        ..d
    };
    let g4 = composite_grid(&d4, &tiles).unwrap();
    assert_eq!(g4.format.chroma, Chroma::Yuv420);
    assert_eq!(g4.sample(1, 1, 1), 4);
    assert!(composite_grid(&d, &tiles[..3]).is_err());
    let big = GridDescriptor {
        output_width: 5,
        ..d
    };
    assert!(composite_grid(&big, &tiles).is_err());
    // Alpha on one tile → output alpha, other tiles opaque.
    let mut with_a = mk(9)
        .with_alpha_plane(&HeifFrame::filled(2, 2, fmt(Chroma::Mono, 8, false), 10).unwrap())
        .unwrap();
    with_a.format.has_alpha = true;
    let tiles_a = [with_a, mk(2), mk(3), mk(4)];
    let ga = composite_grid(&d4, &tiles_a).unwrap();
    assert!(ga.format.has_alpha);
    assert_eq!(ga.sample(3, 0, 0), 10);
    assert_eq!(ga.sample(3, 3, 3), 255);
}

#[test]
fn fill_colour_conversion() {
    // Neutral grey is depth-scaled luma with mid chroma for every matrix.
    assert_eq!(
        fill_to_ycbcr([16384, 16384, 16384], 8, None),
        [64, 128, 128]
    );
    assert_eq!(
        fill_to_ycbcr([65535, 65535, 65535], 10, None),
        [1023, 512, 512]
    );
    let limited = Colr::Nclx {
        primaries: 1,
        transfer: 1,
        matrix: 1,
        full_range: false,
    };
    assert_eq!(
        fill_to_ycbcr([65535, 65535, 65535], 8, Some(&limited)),
        [235, 128, 128]
    );
    assert_eq!(fill_to_ycbcr([0, 0, 0], 8, Some(&limited)), [16, 128, 128]);
    // Identity matrix keeps GBR.
    let id = Colr::Nclx {
        primaries: 1,
        transfer: 13,
        matrix: 0,
        full_range: true,
    };
    assert_eq!(
        fill_to_ycbcr([65535, 0, 32768], 8, Some(&id)),
        [0, 128, 255]
    );
    // Pure red, BT.601 full range: Y ≈ 76, Cb ≈ 85, Cr = 255.
    assert_eq!(fill_to_ycbcr([65535, 0, 0], 8, None), [76, 85, 255]);
}

#[test]
fn overlay_paints_offsets_and_alpha() {
    let base = HeifFrame::filled(4, 4, fmt(Chroma::Yuv444, 8, false), 10).unwrap();
    let mut stamp = HeifFrame::filled(2, 2, fmt(Chroma::Yuv444, 8, true), 200).unwrap();
    // Alpha: left column opaque, right column half.
    for y in 0..2 {
        stamp.set_sample(3, 0, y, 255);
        stamp.set_sample(3, 1, y, 128);
    }
    let d = OverlayDescriptor {
        canvas_fill: [0, 0, 0, 65535],
        output_width: 4,
        output_height: 4,
        offsets: vec![(0, 0), (1, 1)],
    };
    let out = composite_overlay(
        &d,
        &[
            OverlayInput {
                frame: &base,
                premultiplied: false,
            },
            OverlayInput {
                frame: &stamp,
                premultiplied: false,
            },
        ],
        None,
    )
    .unwrap();
    assert!(!out.format.has_alpha);
    assert_eq!(out.sample(0, 0, 0), 10);
    assert_eq!(out.sample(0, 1, 1), 200, "opaque stamp column");
    // half: 200*128/255 + 10*127/255 ≈ 100.4 + 4.98 = 105.
    assert_eq!(out.sample(0, 2, 1), 105);
    assert_eq!(out.sample(0, 3, 3), 10);
    // Pre-multiplied input: vu = m + vi(1-α).
    let out_p = composite_overlay(
        &d,
        &[
            OverlayInput {
                frame: &base,
                premultiplied: false,
            },
            OverlayInput {
                frame: &stamp,
                premultiplied: true,
            },
        ],
        None,
    )
    .unwrap();
    assert_eq!(out_p.sample(0, 2, 1), 205);
    // Negative offset clips; canvas outside inputs shows the fill.
    let d2 = OverlayDescriptor {
        canvas_fill: [65535, 65535, 65535, 65535],
        output_width: 3,
        output_height: 3,
        offsets: vec![(-2, -2)],
    };
    let o2 = composite_overlay(
        &d2,
        &[OverlayInput {
            frame: &base,
            premultiplied: false,
        }],
        None,
    )
    .unwrap();
    assert_eq!(o2.sample(0, 0, 0), 10);
    assert_eq!(o2.sample(0, 2, 2), 255);
    assert_eq!(o2.sample(1, 2, 2), 128);
    // Translucent canvas → output alpha; a transparent hole keeps
    // the fill colour with alpha 0.
    let d3 = OverlayDescriptor {
        canvas_fill: [0, 0, 0, 0],
        output_width: 4,
        output_height: 4,
        offsets: vec![(1, 1)],
    };
    let o3 = composite_overlay(
        &d3,
        &[OverlayInput {
            frame: &stamp,
            premultiplied: false,
        }],
        None,
    )
    .unwrap();
    assert!(o3.format.has_alpha);
    assert_eq!(o3.sample(3, 0, 0), 0);
    assert_eq!(o3.sample(3, 1, 1), 255);
    assert_eq!(o3.sample(3, 2, 1), 128);
    assert_eq!(o3.sample(0, 1, 1), 200);
    assert_eq!(o3.sample(0, 2, 1), 200, "un-premultiplied colour survives");
    // Odd offset in 4:2:0 promotes to 4:4:4.
    let b420 = HeifFrame::filled(4, 4, fmt(Chroma::Yuv420, 8, false), 10).unwrap();
    let s420 = HeifFrame::filled(2, 2, fmt(Chroma::Yuv420, 8, false), 99).unwrap();
    let d4 = OverlayDescriptor {
        canvas_fill: [0, 0, 0, 65535],
        output_width: 4,
        output_height: 4,
        offsets: vec![(0, 0), (1, 0)],
    };
    let o4 = composite_overlay(
        &d4,
        &[
            OverlayInput {
                frame: &b420,
                premultiplied: false,
            },
            OverlayInput {
                frame: &s420,
                premultiplied: false,
            },
        ],
        None,
    )
    .unwrap();
    assert_eq!(o4.format.chroma, Chroma::Yuv444);
    assert_eq!(o4.sample(0, 1, 0), 99);
    assert_eq!(o4.sample(0, 3, 0), 10);
    // Even offsets keep 4:2:0.
    let d5 = OverlayDescriptor {
        offsets: vec![(0, 0), (2, 2)],
        ..d4.clone()
    };
    let o5 = composite_overlay(
        &d5,
        &[
            OverlayInput {
                frame: &b420,
                premultiplied: false,
            },
            OverlayInput {
                frame: &s420,
                premultiplied: false,
            },
        ],
        None,
    )
    .unwrap();
    assert_eq!(o5.format.chroma, Chroma::Yuv420);
    assert_eq!(o5.sample(0, 3, 3), 99);
    assert_eq!(o5.sample(1, 1, 1), 99);
    assert_eq!(o5.sample(1, 0, 0), 10);
}

#[test]
fn alpha_attachment_resizes_and_rescales() {
    let master = HeifFrame::filled(4, 4, fmt(Chroma::Yuv420, 8, false), 1).unwrap();
    let alpha = HeifFrame::filled(2, 2, fmt(Chroma::Yuv420, 10, false), 1023).unwrap();
    let out = attach_alpha(&master, &alpha).unwrap();
    assert!(out.format.has_alpha);
    assert_eq!(out.sample(3, 3, 3), 255);
    let small = rescale_depth(
        &HeifFrame::filled(1, 1, fmt(Chroma::Mono, 8, false), 255).unwrap(),
        10,
    )
    .unwrap();
    assert_eq!(small.sample(0, 0, 0), 1020);
}
