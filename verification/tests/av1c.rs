use oxideav_heif::av1c::Av1Config;

#[test]
fn parse_and_serialize() {
    let raw = [0x81, 0x0c, 0x0c, 0x00, 0x0a, 0x0b];
    let c = Av1Config::parse(&raw).unwrap();
    assert_eq!(c.seq_profile, 0);
    assert_eq!(c.seq_level_idx_0, 12);
    assert!(c.chroma_subsampling_x && c.chroma_subsampling_y);
    assert_eq!(c.bit_depth(), 8);
    assert_eq!(c.chroma_format_idc(), 1);
    assert_eq!(c.config_obus, vec![0x0a, 0x0b]);
    assert_eq!(c.serialize(), raw);
    assert_eq!(c.to_bytes(), raw);
    let hi = Av1Config::parse(&[0x81, 0x4d, 0x70, 0x1f]).unwrap();
    assert_eq!(hi.seq_profile, 2);
    assert_eq!(hi.bit_depth(), 12);
    assert!(hi.monochrome);
    assert_eq!(hi.chroma_format_idc(), 0);
    assert_eq!(hi.initial_presentation_delay_minus_one, Some(15));
    assert_eq!(hi.serialize(), [0x81, 0x4d, 0x70, 0x1f]);
    let c422 = Av1Config::parse(&[0x81, 0x00, 0x08, 0x00]).unwrap();
    assert_eq!(c422.chroma_format_idc(), 2);
    let c444 = Av1Config::parse(&[0x81, 0x00, 0x40, 0x00]).unwrap();
    assert_eq!(c444.chroma_format_idc(), 3);
    assert_eq!(c444.bit_depth(), 10);
}

#[test]
fn rejects_marker_version_and_short() {
    assert!(Av1Config::parse(&[0x01, 0, 0, 0]).is_err());
    assert!(Av1Config::parse(&[0x82, 0, 0, 0]).is_err());
    assert!(Av1Config::parse(&[0x81, 0, 0]).is_err());
}
