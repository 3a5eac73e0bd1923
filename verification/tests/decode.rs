use oxideav_heif::decode::frame_from_planes;
use oxideav_heif::image::{Chroma, HeifPixelFormat, HeifPlane};

#[test]
fn frame_from_planes_crops_to_ispe() {
    let layout = HeifPixelFormat::new(Chroma::Yuv420, 8, false).unwrap();
    let vf = [
        HeifPlane {
            stride: 8,
            data: (0..64).collect(),
        },
        HeifPlane {
            stride: 4,
            data: vec![1; 16],
        },
        HeifPlane {
            stride: 4,
            data: vec![2; 16],
        },
    ];
    let f = frame_from_planes(&vf, layout, Some((6, 4)), 1).unwrap();
    assert_eq!((f.width, f.height), (6, 4));
    assert_eq!(f.planes[0].stride, 6);
    assert_eq!(f.sample(0, 5, 3), 3 * 8 + 5);
    assert_eq!(f.plane_dims(1), (3, 2));
    assert!(frame_from_planes(&vf, layout, Some((9, 4)), 1).is_err());
    let g = frame_from_planes(&vf, layout, None, 1).unwrap();
    assert_eq!((g.width, g.height), (8, 8));
    let mono = HeifPixelFormat::new(Chroma::Mono, 8, false).unwrap();
    let m = frame_from_planes(&vf, mono, Some((8, 8)), 1).unwrap();
    assert_eq!(m.planes.len(), 1);
}
