use oxideav_heif::derived::{GridDescriptor, OverlayDescriptor};

#[test]
fn grid_descriptor_round_trip() {
    let g = GridDescriptor {
        rows: 2,
        columns: 3,
        output_width: 300,
        output_height: 200,
    };
    let b = g.to_bytes();
    assert_eq!(b, [0, 0, 1, 2, 1, 44, 0, 200]);
    assert_eq!(GridDescriptor::parse(&b).unwrap(), g);
    assert_eq!(g.tile_count(), 6);
    let big = GridDescriptor {
        output_width: 70000,
        ..g
    };
    let b = big.to_bytes();
    assert_eq!(b.len(), 12);
    assert_eq!(GridDescriptor::parse(&b).unwrap(), big);
    assert!(GridDescriptor::parse(&[1, 0, 0, 0, 0, 1, 0, 1]).is_err());
    assert!(GridDescriptor::parse(&[0, 0, 0, 0, 0, 0, 0, 1]).is_err());
    assert!(GridDescriptor::parse(&[0, 0, 0]).is_err());
    assert!(GridDescriptor::parse(&[0, 1, 0, 0, 0xff, 0xff, 0xff, 0xff, 0, 0, 0, 2]).is_err());
}

#[test]
fn overlay_descriptor_round_trip() {
    let o = OverlayDescriptor {
        canvas_fill: [16384, 16384, 16384, 65535],
        output_width: 256,
        output_height: 256,
        offsets: vec![(0, 0), (96, -96)],
    };
    let b = o.to_bytes();
    assert_eq!(b.len(), 2 + 8 + 4 + 8);
    assert_eq!(OverlayDescriptor::parse(&b, 2).unwrap(), o);
    assert!(OverlayDescriptor::parse(&b, 3).is_err());
    let wide = OverlayDescriptor {
        offsets: vec![(70000, 0)],
        ..o.clone()
    };
    let b = wide.to_bytes();
    assert_eq!(b[1], 1);
    assert_eq!(OverlayDescriptor::parse(&b, 1).unwrap(), wide);
    assert!(OverlayDescriptor::parse(&[0, 0, 0, 0], 0).is_err());
}
