use oxideav_heif::image::core_bridge::PixelFormat;
use oxideav_heif::image::{Chroma, HeifFrame, HeifPixelFormat};

fn fmt(chroma: Chroma, depth: u8, alpha: bool) -> HeifPixelFormat {
    HeifPixelFormat::new(chroma, depth, alpha).unwrap()
}

#[test]
fn plane_geometry() {
    let f = fmt(Chroma::Yuv420, 8, true);
    assert_eq!(f.plane_count(), 4);
    assert_eq!(f.alpha_plane(), Some(3));
    assert_eq!(f.plane_dims(1, 5, 3), (3, 2));
    assert_eq!(f.plane_dims(3, 5, 3), (5, 3));
    let g = fmt(Chroma::Mono, 10, false);
    assert_eq!(g.plane_count(), 1);
    assert_eq!(g.bytes_per_sample(), 2);
    assert_eq!(g.max_value(), 1023);
    assert_eq!(
        fmt(Chroma::Yuv422, 8, false).chroma.chroma_dims(5, 3),
        (3, 3)
    );
    assert!(HeifPixelFormat::new(Chroma::Mono, 7, false).is_err());
    assert_eq!(Chroma::from_idc(2), Some(Chroma::Yuv422));
    assert_eq!(Chroma::from_idc(4), None);
}

#[test]
fn filled_sample_roundtrip_16bit() {
    let mut f = HeifFrame::filled(4, 2, fmt(Chroma::Yuv444, 10, false), 512).unwrap();
    f.validate().unwrap();
    assert_eq!(f.sample(2, 3, 1), 512);
    f.set_sample(2, 3, 1, 1023);
    assert_eq!(f.sample(2, 3, 1), 1023);
    assert_eq!(f.row(0, 1).len(), 8);
    let t = f.tight();
    assert_eq!(t, f);
    assert!(HeifFrame::zeroed(0, 1, f.format).is_err());
}

#[test]
fn alpha_attach_and_detach() {
    let base = HeifFrame::filled(2, 2, fmt(Chroma::Yuv420, 8, false), 7).unwrap();
    let alpha = HeifFrame::filled(2, 2, fmt(Chroma::Mono, 8, false), 200).unwrap();
    let with = base.with_alpha_plane(&alpha).unwrap();
    assert!(with.format.has_alpha);
    assert_eq!(with.sample(3, 1, 1), 200);
    assert_eq!(with.without_alpha(), base);
    assert_eq!(with.alpha_as_frame().unwrap(), alpha);
    let bad = HeifFrame::filled(3, 2, fmt(Chroma::Mono, 8, false), 0).unwrap();
    assert!(base.with_alpha_plane(&bad).is_err());
    let deep = HeifFrame::filled(2, 2, fmt(Chroma::Mono, 10, false), 0).unwrap();
    assert!(base.with_alpha_plane(&deep).is_err());
}

#[test]
fn validate_catches_short_planes() {
    let mut f = HeifFrame::zeroed(4, 4, fmt(Chroma::Yuv420, 8, false)).unwrap();
    f.planes[1].data.truncate(1);
    assert!(f.validate().is_err());
    f.planes.pop();
    assert!(f.validate().is_err());
}

#[test]
fn core_bridge_round_trip_and_promotion() {
    let f = HeifFrame::filled(4, 2, fmt(Chroma::Yuv420, 10, false), 300).unwrap();
    let (vf, pf) = f.to_core().unwrap();
    assert_eq!(pf, PixelFormat::Yuv420P10Le);
    let back = HeifFrame::from_core(&vf, 4, 2, pf).unwrap();
    assert_eq!(back, f);
    // Gray + alpha at 10 bits has no framework layout: promoted.
    let g = HeifFrame::filled(2, 2, fmt(Chroma::Mono, 10, true), 1000).unwrap();
    let (vf, pf) = g.to_core().unwrap();
    assert_eq!(pf, PixelFormat::Yuva444P10Le);
    assert_eq!(vf.planes.len(), 4);
    let back = HeifFrame::from_core(&vf, 2, 2, pf).unwrap();
    assert_eq!(back.sample(0, 1, 1), 1000);
    assert_eq!(back.sample(1, 1, 1), 512, "neutral chroma");
    assert_eq!(back.sample(3, 0, 0), 1000, "alpha kept");
    assert!(HeifPixelFormat::from_core(PixelFormat::Rgb24).is_none());
}
