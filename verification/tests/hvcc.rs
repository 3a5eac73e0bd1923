use oxideav_heif::hvcc::{
    join_length_prefixed, nal_layer_id, nal_unit_type, split_annex_b, split_length_prefixed,
    HevcConfig, NAL_SPS, NAL_VPS,
};

/// A record with the layout the corpus uses (3 arrays, one NAL each).
fn sample_record() -> Vec<u8> {
    let mut b = vec![
        0x01, // version
        0x03, // profile_space 0, tier 0, profile_idc 3
        0x70, 0x00, 0x00, 0x00, // compat flags
        0x90, 0x00, 0x00, 0x00, 0x00, 0x00, // constraint flags
        0x3c, // level 60
        0xf0, 0x00, // min_spatial_segmentation
        0xfc, // parallelism
        0xfd, // chroma 4:2:0
        0xf8, // luma 8
        0xf8, // chroma 8
        0x00, 0x00, // avg frame rate
        0x0f, // cfr 0, temporal layers 1, nested 1, lengthSizeMinusOne 3
        0x03, // arrays
    ];
    for (t, nal) in [
        (0xa0u8, vec![0x40, 0x01, 0x0c, 0x01]),
        (0xa1, vec![0x42, 0x01, 0x01, 0x03]),
        (0xa2, vec![0x44, 0x01, 0xc1]),
    ] {
        b.push(t);
        b.extend_from_slice(&1u16.to_be_bytes());
        b.extend_from_slice(&(nal.len() as u16).to_be_bytes());
        b.extend_from_slice(&nal);
    }
    b
}

#[test]
fn parses_and_reserializes_byte_exact() {
    let raw = sample_record();
    let c = HevcConfig::parse(&raw).unwrap();
    assert_eq!(c.general_profile_idc, 3);
    assert_eq!(c.general_level_idc, 60);
    assert_eq!(c.chroma_format_idc, 1);
    assert_eq!(c.chroma_name(), "yuv420");
    assert_eq!(c.bit_depth_luma(), 8);
    assert_eq!(c.length_size, 4);
    assert_eq!(c.num_temporal_layers, 1);
    assert!(c.temporal_id_nested);
    assert_eq!(c.arrays.len(), 3);
    assert_eq!(c.nal_count(), 3);
    assert!(c.arrays[0].complete);
    assert_eq!(c.arrays[0].nal_unit_type, NAL_VPS);
    assert_eq!(c.nal_units_of_type(NAL_SPS).len(), 1);
    assert!(c.declares_profile(3));
    assert!(c.declares_profile(1), "compat flag bit for profile 1");
    assert!(c.declares_profile(2), "0x70 compat nibble = profiles 1..=3");
    assert!(!c.declares_profile(4));
    assert_eq!(c.to_bytes(), raw);
    assert_eq!(c.serialize(), raw);
    assert_eq!(c.general_constraint_indicator_flags, 0x9000_0000_0000);
}

#[test]
fn rejects_bad_version_and_truncation() {
    let mut raw = sample_record();
    raw[0] = 2;
    assert!(HevcConfig::parse(&raw).is_err());
    let raw = sample_record();
    assert!(HevcConfig::parse(&raw[..raw.len() - 1]).is_err());
    assert!(HevcConfig::parse(&raw[..10]).is_err());
}

#[test]
fn length_prefix_split_and_join() {
    let nals: Vec<&[u8]> = vec![&[0x26, 0x01, 0xaf], &[0x28, 0x01]];
    let joined = join_length_prefixed(&nals, 4).unwrap();
    assert_eq!(joined.len(), 4 + 3 + 4 + 2);
    let split = split_length_prefixed(&joined, 4).unwrap();
    assert_eq!(split, nals);
    assert!(split_length_prefixed(&joined[..6], 4).is_err());
    assert!(split_length_prefixed(&[0, 0, 0, 0], 4).is_err());
    let two = join_length_prefixed(&nals, 2).unwrap();
    assert_eq!(split_length_prefixed(&two, 2).unwrap(), nals);
    assert!(join_length_prefixed(&[&[0u8; 300]], 1).is_err());
    assert_eq!(nal_unit_type(&[0x26, 0x01]), Some(19));
    assert_eq!(nal_layer_id(&[0x26, 0x01]), Some(0));
}

#[test]
fn annex_b_split() {
    let s = [
        0, 0, 0, 1, 0x40, 0x01, 0x0c, 0, 0, 1, 0x42, 0x01, 0xaa, 0, 0, 0, 0, 1, 0x26, 0x01,
        0xff, 0, 0,
    ];
    let nals = split_annex_b(&s);
    assert_eq!(nals.len(), 3);
    assert_eq!(nals[0], &[0x40, 0x01, 0x0c]);
    assert_eq!(nals[1], &[0x42, 0x01, 0xaa]);
    assert_eq!(nals[2], &[0x26, 0x01, 0xff]);
    assert!(split_annex_b(&[1, 2, 3]).is_empty());
}
