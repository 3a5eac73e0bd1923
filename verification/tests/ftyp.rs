use oxideav_heif::boxes::{parse_box_header, payload};
use oxideav_heif::ftyp::{probe_score, FileType, BRAND_HEIC, BRAND_MIAF, BRAND_MIF1};

fn ftyp(major: &[u8; 4], compat: &[&[u8; 4]]) -> Vec<u8> {
    let ft = FileType {
        box_type: *b"ftyp",
        major_brand: *major,
        minor_version: 0,
        compatible_brands: compat.iter().map(|b| **b).collect(),
    };
    ft.to_box()
}

#[test]
fn parse_round_trip_and_classify() {
    let bytes = ftyp(b"heic", &[b"mif1", b"heic", b"miaf"]);
    let h = parse_box_header(&bytes, 0).unwrap();
    let ft = FileType::parse(h.box_type, payload(&bytes, &h)).unwrap();
    assert_eq!(ft.major_brand, BRAND_HEIC);
    assert_eq!(ft.compatible_brands.len(), 3);
    assert!(ft.has_brand(&BRAND_MIAF));
    assert!(ft.is_heif_family());
    let c = ft.classify();
    assert!(c.image_collection && c.miaf && c.hevc);
    assert!(!c.image_sequence && !c.av1);
    assert_eq!(ft.to_box(), bytes);
    assert_eq!(ft.all_brands(), vec![BRAND_HEIC, BRAND_MIF1, BRAND_MIAF]);
}

#[test]
fn sequence_brands_classify() {
    let bytes = ftyp(
        b"hevc",
        &[b"mif1", b"heic", b"miaf", b"msf1", b"hevc", b"iso8"],
    );
    let h = parse_box_header(&bytes, 0).unwrap();
    let ft = FileType::parse(h.box_type, payload(&bytes, &h)).unwrap();
    let c = ft.classify();
    assert!(c.image_collection && c.image_sequence && c.hevc);
}

#[test]
fn probe_scores() {
    assert_eq!(probe_score(&ftyp(b"heic", &[b"mif1"])), 100);
    assert_eq!(probe_score(&ftyp(b"mif1", &[b"miaf"])), 100);
    assert_eq!(probe_score(&ftyp(b"avif", &[b"mif1"])), 100);
    assert_eq!(probe_score(&ftyp(b"isom", &[b"mp42"])), 0);
    assert_eq!(probe_score(&ftyp(b"qt  ", &[])), 0);
    // A HEIF brand among the compatible brands of a generic major
    // brand still counts (some writers put `isom` first).
    assert_eq!(probe_score(&ftyp(b"isom", &[b"mif1", b"heic"])), 100);
    assert_eq!(probe_score(b"short"), 0);
    // Only the first 16 bytes of a 16-byte ftyp: major brand is heic.
    let b = ftyp(b"heic", &[]);
    assert_eq!(b.len(), 16);
    assert_eq!(probe_score(&b), 100);
}

#[test]
fn rejects_misaligned_body() {
    let mut bytes = ftyp(b"heic", &[b"mif1"]);
    bytes[3] += 1;
    bytes.push(0);
    let h = parse_box_header(&bytes, 0).unwrap();
    assert!(FileType::parse(h.box_type, payload(&bytes, &h)).is_err());
}
