use oxideav_heif::compose::fill_to_ycbcr;
use oxideav_heif::image::{Chroma, HeifFrame, HeifPixelFormat};
use oxideav_heif::props::Colr;
use oxideav_heif::rgb::to_rgb;

fn frame_of(chroma: Chroma, depth: u8, ycc: [u16; 3]) -> HeifFrame {
    let mut f =
        HeifFrame::zeroed(2, 2, HeifPixelFormat::new(chroma, depth, false).unwrap()).unwrap();
    for (p, v) in ycc.iter().enumerate() {
        let (pw, ph) = f.plane_dims(p);
        for y in 0..ph {
            for x in 0..pw {
                f.set_sample(p, x, y, *v);
            }
        }
    }
    f
}

#[test]
fn round_trips_the_overlay_fill_conversion() {
    for (matrix, full) in [(6u16, true), (1, false), (9, false), (0, true), (5, true)] {
        let colr = Colr::Nclx {
            primaries: 1,
            transfer: 13,
            matrix,
            full_range: full,
        };
        for depth in [8u8, 10] {
            let max = (1u32 << depth) - 1;
            for rgb in [
                [0u16, 0, 0],
                [65535, 65535, 65535],
                [65535, 0, 0],
                [12000, 40000, 30000],
            ] {
                let ycc = fill_to_ycbcr(rgb, depth, Some(&colr));
                let f = frame_of(Chroma::Yuv444, depth, ycc);
                let out = to_rgb(&f, Some(&colr)).unwrap();
                assert_eq!(out.channels, 3);
                for c in 0..3 {
                    let want = (rgb[c] as f64 / 65535.0 * max as f64).round() as i32;
                    let got = out.sample(1, 1, c) as i32;
                    assert!(
                        (got - want).abs() <= 1 + (depth as i32 - 8),
                        "matrix {matrix} full {full} depth {depth} rgb {rgb:?}: ch {c} got {got} want {want}"
                    );
                }
            }
        }
    }
}

#[test]
fn mono_and_alpha_and_subsampling() {
    let mut f = HeifFrame::filled(
        2,
        2,
        HeifPixelFormat::new(Chroma::Mono, 8, true).unwrap(),
        200,
    )
    .unwrap();
    f.set_sample(1, 1, 1, 17);
    let limited = Colr::Nclx {
        primaries: 1,
        transfer: 1,
        matrix: 1,
        full_range: false,
    };
    let out = to_rgb(&f, Some(&limited)).unwrap();
    assert_eq!(out.channels, 4);
    assert_eq!(out.sample(1, 1, 3), 17);
    assert_eq!(
        out.sample(0, 0, 0),
        ((200.0 - 16.0) / 219.0 * 255.0f64).round() as u16
    );
    assert_eq!(out.to_be_bytes().len(), 16);
    // 4:2:0 replicates the single chroma sample over the 2x2 block.
    let g = frame_of(Chroma::Yuv420, 8, [128, 64, 192]);
    let out = to_rgb(&g, None).unwrap();
    for y in 0..2 {
        for x in 0..2 {
            assert_eq!(out.sample(x, y, 0), out.sample(0, 0, 0));
        }
    }
    assert!(out.sample(0, 0, 0) > out.sample(0, 0, 1), "Cr high → red");
    assert!(to_rgb(
        &frame_of(Chroma::Yuv444, 8, [1, 2, 3]),
        Some(&Colr::Nclx {
            primaries: 1,
            transfer: 1,
            matrix: 14,
            full_range: true
        })
    )
    .is_err());
}
