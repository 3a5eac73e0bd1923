use oxideav_heif::hvcc::NalArray;
use oxideav_heif::lhvc::{
    nuh_layer_id, LayerDependency, LhevcConfig, OperatingPoint, OperatingPointLayer,
    OperatingPointPtl, OperatingPoints,
};

#[test]
fn lhvc_round_trips() {
    let cfg = LhevcConfig {
        configuration_version: 1,
        min_spatial_segmentation_idc: 5,
        parallelism_type: 2,
        num_temporal_layers: 1,
        temporal_id_nested: true,
        length_size: 4,
        arrays: vec![
            NalArray {
                complete: true,
                reserved_bit: false,
                nal_unit_type: 32,
                nal_units: vec![vec![0x40, 0x01, 0x0c]],
            },
            NalArray {
                complete: true,
                reserved_bit: false,
                nal_unit_type: 33,
                nal_units: vec![vec![0x42, 0x09, 0x01], vec![0x42, 0x01, 0x01]],
            },
        ],
        raw: Vec::new(),
    };
    let bytes = cfg.serialize();
    assert_eq!(bytes.len(), 6 + (3 + 2 + 3) + (3 + 2 + 3 + 2 + 3));
    assert_eq!(bytes[1] & 0xf0, 0xf0);
    let back = LhevcConfig::parse(&bytes).unwrap();
    assert_eq!(back.raw, bytes);
    assert_eq!(
        LhevcConfig {
            raw: Vec::new(),
            ..back
        },
        cfg
    );
    assert_eq!(cfg.nal_units().len(), 3);
    // Layer id 1 sits in the low bit of byte 0 and the top 5 of byte 1.
    assert_eq!(nuh_layer_id(&[0x42, 0x09]), Some(1));
    assert_eq!(nuh_layer_id(&[0x42, 0x01]), Some(0));
    assert_eq!(nuh_layer_id(&[0x43, 0x01]), Some(32));
    assert_eq!(nuh_layer_id(&[0x42]), None);
    assert!(LhevcConfig::parse(&[2, 0, 0, 0, 0, 0]).is_err());
}

#[test]
fn oinf_round_trips() {
    let o = OperatingPoints {
        scalability_mask: 0b100,
        ptls: vec![OperatingPointPtl {
            profile_space: 0,
            tier_flag: false,
            profile_idc: 1,
            profile_compatibility_flags: 0x6000_0000,
            constraint_indicator_flags: 0x9000_0000_0000,
            level_idc: 93,
        }],
        operating_points: vec![
            OperatingPoint {
                output_layer_set_idx: 0,
                max_temporal_id: 0,
                layers: vec![OperatingPointLayer {
                    ptl_idx: 1,
                    layer_id: 0,
                    is_output_layer: true,
                    is_alternate_output_layer: false,
                }],
                min_pic_size: (64, 64),
                max_pic_size: (64, 64),
                max_chroma_format: 1,
                max_bit_depth_minus8: 0,
                frame_rate: None,
                bit_rate: None,
            },
            OperatingPoint {
                output_layer_set_idx: 1,
                max_temporal_id: 0,
                layers: vec![
                    OperatingPointLayer {
                        ptl_idx: 1,
                        layer_id: 0,
                        is_output_layer: false,
                        is_alternate_output_layer: false,
                    },
                    OperatingPointLayer {
                        ptl_idx: 1,
                        layer_id: 1,
                        is_output_layer: true,
                        is_alternate_output_layer: false,
                    },
                ],
                min_pic_size: (64, 64),
                max_pic_size: (128, 128),
                max_chroma_format: 1,
                max_bit_depth_minus8: 2,
                frame_rate: Some((30, 1)),
                bit_rate: Some((1000, 500)),
            },
        ],
        layers: vec![
            LayerDependency {
                layer_id: 0,
                direct_ref_layer_ids: vec![],
                dimension_identifiers: vec![(2, 0)],
            },
            LayerDependency {
                layer_id: 1,
                direct_ref_layer_ids: vec![0],
                dimension_identifiers: vec![(2, 1)],
            },
        ],
        raw: Vec::new(),
    };
    let bytes = o.serialize();
    let back = OperatingPoints::parse(&bytes).unwrap();
    assert_eq!(back.raw, bytes);
    assert_eq!(
        OperatingPoints {
            raw: Vec::new(),
            ..back.clone()
        },
        o
    );
    assert_eq!(back.output_layers(1), vec![1]);
    assert_eq!(back.output_layers(0), vec![0]);
    assert!(back.operating_point(7).is_none());
    assert!(OperatingPoints::parse(&bytes[..10]).is_err());
}
