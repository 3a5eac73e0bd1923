use oxideav_heif::avcc::AvcConfig;
use oxideav_heif::image::Chroma;

#[test]
fn record_round_trips_with_and_without_the_trailer() {
    let high = AvcConfig {
        configuration_version: 1,
        profile_idc: 100,
        profile_compatibility: 0,
        level_idc: 31,
        length_size: 4,
        sps: vec![vec![0x67, 0x64, 0, 31, 0xac]],
        pps: vec![vec![0x68, 0xee, 0x3c, 0x80]],
        chroma_format: Some(1),
        bit_depth_luma_minus8: Some(0),
        bit_depth_chroma_minus8: Some(0),
        sps_ext: Vec::new(),
        raw: Vec::new(),
    };
    let bytes = high.serialize();
    assert_eq!(bytes[4], 0xff, "reserved 111111 + lengthSizeMinusOne 3");
    assert_eq!(bytes[5], 0xe1, "reserved 111 + 1 SPS");
    assert_eq!(bytes.len(), 6 + 2 + 5 + 1 + 2 + 4 + 4);
    let back = AvcConfig::parse(&bytes).unwrap();
    assert_eq!(back.raw, bytes);
    assert_eq!(
        AvcConfig {
            raw: Vec::new(),
            ..back.clone()
        },
        high
    );
    assert_eq!(back.layout().unwrap().chroma, Chroma::Yuv420);
    let base = AvcConfig {
        profile_idc: 66,
        chroma_format: None,
        bit_depth_luma_minus8: None,
        bit_depth_chroma_minus8: None,
        ..high.clone()
    };
    let b = base.serialize();
    assert_eq!(b.len(), 6 + 2 + 5 + 1 + 2 + 4);
    let back = AvcConfig::parse(&b).unwrap();
    assert_eq!(back.chroma_format, None);
    assert_eq!(back.layout().unwrap().bit_depth, 8);
    // A High record without its trailer still parses.
    let truncated = AvcConfig::parse(&bytes[..bytes.len() - 4]).unwrap();
    assert_eq!(truncated.chroma_format, None);
    // Illegal three-byte prefix.
    let mut bad = bytes.clone();
    bad[4] = 0xfe;
    assert!(AvcConfig::parse(&bad).is_err());
    assert!(AvcConfig::parse(&bytes[..3]).is_err());
}
