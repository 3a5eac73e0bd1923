use oxideav_heif::gainmap::{GainMapChannel, GainMapMetadata, Rational};

fn r(num: i64, den: u32) -> Rational {
    Rational { num, den }
}

fn meta(gamma: Rational, multi: bool) -> GainMapMetadata {
    let ch = GainMapChannel {
        gain_map_min: r(-1, 1),
        gain_map_max: r(3, 1),
        gamma,
        base_offset: r(1, 64),
        alternate_offset: r(1, 64),
    };
    GainMapMetadata {
        minimum_version: 0,
        writer_version: 0,
        is_multichannel: multi,
        use_base_colour_space: true,
        base_hdr_headroom: r(0, 1),
        alternate_hdr_headroom: r(2, 1),
        channels: if multi { vec![ch; 3] } else { vec![ch] },
    }
}

#[test]
fn metadata_round_trips_and_rejects_bad_fields() {
    let m = meta(r(3, 2), true);
    let bytes = m.serialize();
    assert_eq!(bytes.len(), 21 + 3 * 40);
    assert_eq!(GainMapMetadata::parse(&bytes).unwrap(), m);
    let single = meta(r(1, 1), false);
    let b = single.serialize();
    assert_eq!(b.len(), 61);
    // Trailing bytes are ignored (C.2.1).
    let mut padded = b.clone();
    padded.extend_from_slice(&[9; 7]);
    assert_eq!(GainMapMetadata::parse(&padded).unwrap(), single);
    assert!(GainMapMetadata::parse(&b[..40]).is_err());
    let mut v1 = b.clone();
    v1[1] = 1;
    assert!(GainMapMetadata::parse(&v1).is_err(), "minimum_version 1");
    let mut zero_den = b.clone();
    zero_den[9..13].copy_from_slice(&0u32.to_be_bytes());
    assert!(GainMapMetadata::parse(&zero_den).is_err());
}
