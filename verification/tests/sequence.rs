use oxideav_heif::boxes::write::full_boxed;
use oxideav_heif::sequence::groups::{parse_csgp, parse_prft, parse_sbgp, parse_sgpd, parse_ssix};
use oxideav_heif::sequence::{ProducerReferenceTime, Sample, Track, TrackOrientation};

#[test]
fn orientation_table() {
    let mut t = Track {
        track_id: 1,
        enabled: true,
        in_movie: true,
        handler: *b"pict",
        timescale: 1,
        duration: 0,
        width: 1,
        height: 1,
        matrix: [0x10000, 0, 0, 0, 0x10000, 0, 0, 0, 0x40000000],
        sample_entries: vec![],
        samples: vec![],
        references: vec![],
        edits: vec![],
        sample_groups: vec![],
        sample_group_descriptions: vec![],
    };
    assert_eq!(
        t.orientation(),
        Some(TrackOrientation {
            rotation: 0,
            mirror: false
        })
    );
    t.matrix = [0, -0x10000, 0, 0x10000, 0, 0, 0, 0, 0x40000000];
    assert_eq!(t.orientation().unwrap().rotation, 1);
    t.matrix = [-0x10000, 0, 0, 0, 0x10000, 0, 0, 0, 0x40000000];
    assert!(t.orientation().unwrap().mirror);
    t.matrix = [0x20000, 0, 0, 0, 0x10000, 0, 0, 0, 0x40000000];
    assert_eq!(t.orientation(), None);
    assert!(t.is_visual());
}

#[test]
fn sample_groups_sbgp_csgp_sgpd() {
    // sbgp v1: 2 samples → 1, 3 samples → 0, 1 sample → 2.
    let mut b = b"eqiv".to_vec();
    b.extend_from_slice(&7u32.to_be_bytes());
    b.extend_from_slice(&3u32.to_be_bytes());
    for (c, g) in [(2u32, 1u32), (3, 0), (1, 2)] {
        b.extend_from_slice(&c.to_be_bytes());
        b.extend_from_slice(&g.to_be_bytes());
    }
    let sbgp = full_boxed(b"sbgp", 1, 0, &b);
    let g = parse_sbgp(&sbgp[8..]).unwrap();
    assert_eq!(g.grouping_type_parameter, Some(7));
    assert_eq!(g.entries, vec![(2, 1), (3, 0), (1, 2)]);
    assert_eq!(g.index_of(0), Some(1));
    assert_eq!(g.index_of(2), Some(0));
    assert_eq!(g.index_of(5), Some(2));
    assert_eq!(g.index_of(6), None);
    // csgp: index 4-bit, count 8-bit, pattern-length 4-bit
    // (flags = 0 | 1<<2 | 0<<4 = 0x04), no parameter. Pattern
    // [1, 2] of length 2 applied to 5 samples, then pattern [3]
    // (length 1) to 2 samples.
    let mut c = b"eqiv".to_vec();
    c.extend_from_slice(&2u32.to_be_bytes());
    // pattern_length[1]=2 (4 bits), sample_count[1]=5 (8 bits),
    // pattern_length[2]=1, sample_count[2]=2 → bits:
    // 0010 00000101 0001 00000010 → 0x20 0x51 0x02 then indices
    // 0001 0010 0011 → 0x12 0x30
    c.extend_from_slice(&[0x20, 0x51, 0x02, 0x12, 0x30]);
    let csgp = full_boxed(b"csgp", 0, 0x04, &c);
    let g = parse_csgp(&csgp[8..]).unwrap();
    assert!(g.compact);
    assert_eq!(
        g.entries,
        vec![(1, 1), (1, 2), (1, 1), (1, 2), (1, 1), (2, 3)]
    );
    assert_eq!(g.index_of(4), Some(1));
    assert_eq!(g.index_of(6), Some(3));
    // sgpd v1 with default_length 0: two entries of 2 and 3 bytes;
    // v2 with a default index.
    let mut d = b"eqiv".to_vec();
    d.extend_from_slice(&0u32.to_be_bytes());
    d.extend_from_slice(&2u32.to_be_bytes());
    d.extend_from_slice(&2u32.to_be_bytes());
    d.extend_from_slice(&[0xaa, 0xbb]);
    d.extend_from_slice(&3u32.to_be_bytes());
    d.extend_from_slice(&[1, 2, 3]);
    let sgpd = full_boxed(b"sgpd", 1, 0, &d);
    let desc = parse_sgpd(&sgpd[8..]).unwrap();
    assert_eq!(desc.entries, vec![vec![0xaa, 0xbb], vec![1, 2, 3]]);
    let mut d2 = b"eqiv".to_vec();
    d2.extend_from_slice(&1u32.to_be_bytes()); // default_length 1
    d2.extend_from_slice(&2u32.to_be_bytes()); // default index 2
    d2.extend_from_slice(&2u32.to_be_bytes());
    d2.extend_from_slice(&[0x11, 0x22]);
    let desc2 = parse_sgpd(&full_boxed(b"sgpd", 2, 0, &d2)[8..]).unwrap();
    assert_eq!(desc2.default_group_description_index, 2);
    assert_eq!(desc2.entries, vec![vec![0x11], vec![0x22]]);
    // Track-level resolution: mapped samples use the mapping, the
    // rest fall back to the sgpd default.
    let t = Track {
        track_id: 1,
        enabled: true,
        in_movie: true,
        handler: *b"pict",
        timescale: 1,
        duration: 0,
        width: 1,
        height: 1,
        matrix: [0x10000, 0, 0, 0, 0x10000, 0, 0, 0, 0x40000000],
        sample_entries: vec![],
        samples: vec![],
        references: vec![],
        edits: vec![],
        sample_groups: vec![parse_sbgp(&sbgp[8..]).unwrap()],
        sample_group_descriptions: vec![desc2],
    };
    assert_eq!(t.group_description_index(b"eqiv", None, 0), Some(1));
    assert_eq!(t.group_description_index(b"eqiv", Some(7), 0), Some(1));
    assert_eq!(t.group_description_index(b"eqiv", Some(8), 0), Some(2));
    assert_eq!(t.group_description_index(b"eqiv", None, 3), None);
    assert_eq!(t.group_description_index(b"eqiv", None, 9), Some(2));
    assert_eq!(t.group_description_of(b"eqiv", None, 9), Some(&[0x22][..]));
    assert_eq!(t.group_description_index(b"rap ", None, 0), None);
}

#[test]
fn prft_and_ssix() {
    let mut b = 3u32.to_be_bytes().to_vec();
    b.extend_from_slice(&0x1122_3344_5566_7788u64.to_be_bytes());
    b.extend_from_slice(&90_000u32.to_be_bytes());
    let p = parse_prft(&full_boxed(b"prft", 0, 24, &b)[8..]).unwrap();
    assert_eq!(
        p,
        ProducerReferenceTime {
            flags: 24,
            reference_track_id: 3,
            ntp_timestamp: 0x1122_3344_5566_7788,
            media_time: 90_000
        }
    );
    let mut b1 = 3u32.to_be_bytes().to_vec();
    b1.extend_from_slice(&1u64.to_be_bytes());
    b1.extend_from_slice(&(1u64 << 40).to_be_bytes());
    assert_eq!(
        parse_prft(&full_boxed(b"prft", 1, 0, &b1)[8..])
            .unwrap()
            .media_time,
        1 << 40
    );
    let mut s = 2u32.to_be_bytes().to_vec();
    s.extend_from_slice(&2u32.to_be_bytes());
    s.extend_from_slice(&[0, 0x00, 0x10, 0x00]);
    s.extend_from_slice(&[1, 0, 0, 0]);
    s.extend_from_slice(&1u32.to_be_bytes());
    s.extend_from_slice(&[7, 0xff, 0xff, 0xff]);
    let x = parse_ssix(&full_boxed(b"ssix", 0, 0, &s)[8..]).unwrap();
    assert_eq!(
        x.subsegments,
        vec![vec![(0, 0x1000), (1, 0)], vec![(7, 0xff_ffff)]]
    );
    assert!(parse_ssix(&full_boxed(b"ssix", 0, 0, &[0, 0, 0, 9])[8..]).is_err());
}

#[test]
fn sample_pts_saturates() {
    let s = Sample {
        offset: 0,
        size: 0,
        dts: 2,
        cts_offset: -5,
        duration: 1,
        is_sync: true,
        description_index: 1,
    };
    assert_eq!(s.pts(), 0);
}
