use oxideav_heif::encode::{pad_frame, profile_compat_flags, to_yuv420_8};
use oxideav_heif::image::{Chroma, HeifFrame, HeifPixelFormat};

#[test]
fn padding_replicates_edges_and_conversion_neutralises_chroma() {
    let mut f = HeifFrame::zeroed(3, 2, HeifPixelFormat::new(Chroma::Mono, 10, false).unwrap())
        .unwrap();
    f.set_sample(0, 2, 1, 1020);
    let p = pad_frame(&f, 4, 4).unwrap();
    assert_eq!(p.sample(0, 3, 3), 1020);
    assert_eq!(p.sample(0, 0, 0), 0);
    let c = to_yuv420_8(&p).unwrap();
    assert_eq!(c.format.chroma, Chroma::Yuv420);
    assert_eq!(c.sample(0, 3, 3), 255);
    assert_eq!(c.sample(1, 1, 1), 128);
    // 4:4:4 → 4:2:0 averages 2x2 chroma blocks.
    let mut q = HeifFrame::zeroed(
        2,
        2,
        HeifPixelFormat::new(Chroma::Yuv444, 8, false).unwrap(),
    )
    .unwrap();
    q.set_sample(1, 0, 0, 100);
    q.set_sample(1, 1, 0, 200);
    q.set_sample(1, 0, 1, 100);
    q.set_sample(1, 1, 1, 200);
    let c = to_yuv420_8(&q).unwrap();
    assert_eq!(c.sample(1, 0, 0), 150);
}

#[test]
fn profile_compat_bits() {
    assert_eq!(profile_compat_flags(1), 1 << 30);
    assert_eq!(profile_compat_flags(3), (1 << 28) | (1 << 30) | (1 << 29));
    assert_eq!(profile_compat_flags(2), (1 << 29) | (1 << 30));
}
