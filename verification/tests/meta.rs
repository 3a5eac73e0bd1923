use oxideav_heif::boxes::write::{boxed, full_boxed};
use oxideav_heif::boxes::{parse_box_header, payload};
use oxideav_heif::meta::parse::{parse_dinf, parse_grpl, parse_iloc, parse_iref};
use oxideav_heif::meta::{reference, Meta};

fn infe_v2(id: u16, ty: &[u8; 4], name: &str) -> Vec<u8> {
    let mut b = id.to_be_bytes().to_vec();
    b.extend_from_slice(&0u16.to_be_bytes());
    b.extend_from_slice(ty);
    b.extend_from_slice(name.as_bytes());
    b.push(0);
    full_boxed(b"infe", 2, 0, &b)
}

fn iinf_v0(entries: &[Vec<u8>]) -> Vec<u8> {
    let mut b = (entries.len() as u16).to_be_bytes().to_vec();
    for e in entries {
        b.extend_from_slice(e);
    }
    full_boxed(b"iinf", 0, 0, &b)
}

fn hdlr_pict() -> Vec<u8> {
    let mut b = vec![0u8; 4];
    b.extend_from_slice(b"pict");
    b.extend_from_slice(&[0u8; 12]);
    b.push(0);
    full_boxed(b"hdlr", 0, 0, &b)
}

fn pitm_v0(id: u16) -> Vec<u8> {
    full_boxed(b"pitm", 0, 0, &id.to_be_bytes())
}

type IlocItem = (u16, u8, Vec<(u32, u32)>);

fn iloc_v1(items: &[IlocItem]) -> Vec<u8> {
    // offset_size 4, length_size 4, base_offset_size 0, index_size 0
    let mut b = vec![0x44u8, 0x00];
    b.extend_from_slice(&(items.len() as u16).to_be_bytes());
    for (id, cm, extents) in items {
        b.extend_from_slice(&id.to_be_bytes());
        b.extend_from_slice(&(*cm as u16).to_be_bytes());
        b.extend_from_slice(&0u16.to_be_bytes()); // dref idx
        b.extend_from_slice(&(extents.len() as u16).to_be_bytes());
        for (o, l) in extents {
            b.extend_from_slice(&o.to_be_bytes());
            b.extend_from_slice(&l.to_be_bytes());
        }
    }
    full_boxed(b"iloc", 1, 0, &b)
}

fn iprp(props: &[Vec<u8>], rows: &[(u16, Vec<u8>)]) -> Vec<u8> {
    let mut ipco = Vec::new();
    for p in props {
        ipco.extend_from_slice(p);
    }
    let mut ipma = (rows.len() as u32).to_be_bytes().to_vec();
    for (id, assoc) in rows {
        ipma.extend_from_slice(&id.to_be_bytes());
        ipma.push(assoc.len() as u8);
        ipma.extend_from_slice(assoc);
    }
    let mut body = boxed(b"ipco", &ipco);
    body.extend(full_boxed(b"ipma", 0, 0, &ipma));
    boxed(b"iprp", &body)
}

fn iref_v0(refs: &[(&[u8; 4], u16, Vec<u16>)]) -> Vec<u8> {
    let mut body = Vec::new();
    for (ty, from, to) in refs {
        let mut b = from.to_be_bytes().to_vec();
        b.extend_from_slice(&(to.len() as u16).to_be_bytes());
        for t in to {
            b.extend_from_slice(&t.to_be_bytes());
        }
        body.extend(boxed(ty, &b));
    }
    full_boxed(b"iref", 0, 0, &body)
}

fn meta_box(children: &[Vec<u8>]) -> Vec<u8> {
    let mut body = vec![0u8; 4];
    for c in children {
        body.extend_from_slice(c);
    }
    boxed(b"meta", &body)
}

#[test]
fn parses_a_minimal_collection() {
    let ispe = full_boxed(b"ispe", 0, 0, &[0, 0, 0, 8, 0, 0, 0, 8]);
    let hvcc = boxed(b"hvcC", &[1, 2, 3]);
    let m = meta_box(&[
        hdlr_pict(),
        pitm_v0(1),
        iinf_v0(&[infe_v2(1, b"hvc1", ""), infe_v2(2, b"Exif", "exif")]),
        iloc_v1(&[(1, 0, vec![(100, 50)]), (2, 1, vec![(0, 10)])]),
        iprp(&[hvcc, ispe], &[(1, vec![0x81, 0x02]), (2, vec![0x00])]),
        iref_v0(&[(b"cdsc", 2, vec![1])]),
        boxed(b"idat", &[9; 10]),
    ]);
    let h = parse_box_header(&m, 0).unwrap();
    let meta = Meta::parse(payload(&m, &h)).unwrap();
    assert_eq!(meta.handler.as_ref().unwrap().handler_type, *b"pict");
    assert_eq!(meta.primary_item_id, Some(1));
    assert_eq!(meta.items.len(), 2);
    assert_eq!(meta.items[1].name, "exif");
    assert_eq!(meta.locations[1].construction_method, 1);
    assert_eq!(meta.properties.len(), 2);
    let props = meta.properties_of(1);
    assert_eq!(props.len(), 2);
    assert_eq!(props[0].0, 1);
    assert!(props[0].2, "hvcC essential");
    assert_eq!(&props[1].1.box_type, b"ispe");
    assert!(!props[1].2);
    // Index-0 placeholder dropped.
    assert!(meta.properties_of(2).is_empty());
    assert_eq!(meta.metadata_of(1), vec![2]);
    assert_eq!(meta.references_from(2, &reference::CDSC), vec![1]);
    assert_eq!(meta.idat.as_deref(), Some(&[9u8; 10][..]));
    assert!(meta.primary_item().unwrap().is_coded_image());
    assert_eq!(meta.property_of(1, b"ispe").unwrap().box_size, 20);
}

#[test]
fn rejects_duplicate_ids_and_bad_indices() {
    let m = meta_box(&[
        hdlr_pict(),
        iinf_v0(&[infe_v2(1, b"hvc1", ""), infe_v2(1, b"hvc1", "")]),
    ]);
    let h = parse_box_header(&m, 0).unwrap();
    assert!(Meta::parse(payload(&m, &h)).is_err());

    let m = meta_box(&[
        hdlr_pict(),
        iinf_v0(&[infe_v2(1, b"hvc1", "")]),
        iprp(&[boxed(b"ispe", &[0; 12])], &[(1, vec![0x05])]),
    ]);
    let h = parse_box_header(&m, 0).unwrap();
    let err = Meta::parse(payload(&m, &h)).unwrap_err();
    assert!(
        err.to_string().contains("property index 5"),
        "{}",
        err.to_string()
    );
}

#[test]
fn ipma_rows_must_increase_and_essential_zero_is_rejected() {
    let m = meta_box(&[
        hdlr_pict(),
        iprp(
            &[boxed(b"ispe", &[0; 12])],
            &[(2, vec![0x01]), (1, vec![0x01])],
        ),
    ]);
    let h = parse_box_header(&m, 0).unwrap();
    assert!(Meta::parse(payload(&m, &h)).is_err());
    let m = meta_box(&[
        hdlr_pict(),
        iprp(&[boxed(b"ispe", &[0; 12])], &[(1, vec![0x80])]),
    ]);
    let h = parse_box_header(&m, 0).unwrap();
    assert!(Meta::parse(payload(&m, &h)).is_err());
}

#[test]
fn mime_and_uri_infe_tails() {
    let mut b = 5u16.to_be_bytes().to_vec();
    b.extend_from_slice(&0u16.to_be_bytes());
    b.extend_from_slice(b"mime");
    b.extend_from_slice(b"\0application/rdf+xml\0\0");
    let infe = full_boxed(b"infe", 2, 0, &b);
    let m = meta_box(&[hdlr_pict(), iinf_v0(&[infe])]);
    let h = parse_box_header(&m, 0).unwrap();
    let meta = Meta::parse(payload(&m, &h)).unwrap();
    assert!(meta.items[0].is_xmp());
    assert_eq!(meta.items[0].content_encoding, None);

    let mut b = 7u32.to_be_bytes().to_vec();
    b.extend_from_slice(&0u16.to_be_bytes());
    b.extend_from_slice(b"uri ");
    b.extend_from_slice(b"n\0urn:iptc:std:IIM:3.0:spec\0");
    let infe = full_boxed(b"infe", 3, 1, &b);
    let m = meta_box(&[hdlr_pict(), iinf_v0(&[infe])]);
    let h = parse_box_header(&m, 0).unwrap();
    let meta = Meta::parse(payload(&m, &h)).unwrap();
    assert_eq!(meta.items[0].id, 7);
    assert!(meta.items[0].is_hidden());
    assert_eq!(
        meta.items[0].item_uri_type.as_deref(),
        Some("urn:iptc:std:IIM:3.0:spec")
    );
}

#[test]
fn iloc_versions_and_widths() {
    // v0: no construction method, offset_size 8, length_size 4, base_offset_size 4.
    let mut b = vec![0x84u8, 0x40];
    b.extend_from_slice(&1u16.to_be_bytes());
    b.extend_from_slice(&3u16.to_be_bytes()); // item id
    b.extend_from_slice(&0u16.to_be_bytes()); // dref
    b.extend_from_slice(&16u32.to_be_bytes()); // base offset
    b.extend_from_slice(&1u16.to_be_bytes()); // extents
    b.extend_from_slice(&32u64.to_be_bytes());
    b.extend_from_slice(&7u32.to_be_bytes());
    let iloc = full_boxed(b"iloc", 0, 0, &b);
    let locs = parse_iloc(payload(&iloc, &parse_box_header(&iloc, 0).unwrap())).unwrap();
    assert_eq!(locs[0].item_id, 3);
    assert_eq!(locs[0].base_offset, 16);
    assert_eq!(locs[0].extents[0].offset, 32);
    assert_eq!(locs[0].extents[0].length, 7);
    assert_eq!(locs[0].declared_size(), 7);

    // v2: 32-bit ids, index_size 4.
    let mut b = vec![0x44u8, 0x04];
    b.extend_from_slice(&1u32.to_be_bytes());
    b.extend_from_slice(&70000u32.to_be_bytes());
    b.extend_from_slice(&2u16.to_be_bytes()); // cm=2
    b.extend_from_slice(&0u16.to_be_bytes());
    b.extend_from_slice(&1u16.to_be_bytes());
    b.extend_from_slice(&1u32.to_be_bytes()); // extent_index
    b.extend_from_slice(&5u32.to_be_bytes());
    b.extend_from_slice(&0u32.to_be_bytes());
    let iloc = full_boxed(b"iloc", 2, 0, &b);
    let locs = parse_iloc(payload(&iloc, &parse_box_header(&iloc, 0).unwrap())).unwrap();
    assert_eq!(locs[0].item_id, 70000);
    assert_eq!(locs[0].construction_method, 2);
    assert_eq!(locs[0].extents[0].index, 1);

    // Bad width nibble.
    let mut b = vec![0x34u8, 0x00];
    b.extend_from_slice(&0u16.to_be_bytes());
    let iloc = full_boxed(b"iloc", 1, 0, &b);
    assert!(parse_iloc(payload(&iloc, &parse_box_header(&iloc, 0).unwrap())).is_err());
}

#[test]
fn iref_v1_and_grpl_and_dref() {
    let mut b = 10u32.to_be_bytes().to_vec();
    b.extend_from_slice(&2u16.to_be_bytes());
    b.extend_from_slice(&11u32.to_be_bytes());
    b.extend_from_slice(&12u32.to_be_bytes());
    let iref = full_boxed(b"iref", 1, 0, &boxed(b"dimg", &b));
    let refs = parse_iref(payload(&iref, &parse_box_header(&iref, 0).unwrap())).unwrap();
    assert_eq!(refs[0].from_item_id, 10);
    assert_eq!(refs[0].to_item_ids, vec![11, 12]);

    let mut g = 1u32.to_be_bytes().to_vec();
    g.extend_from_slice(&2u32.to_be_bytes());
    g.extend_from_slice(&5u32.to_be_bytes());
    g.extend_from_slice(&6u32.to_be_bytes());
    let grpl = boxed(b"grpl", &full_boxed(b"altr", 0, 0, &g));
    let groups = parse_grpl(payload(&grpl, &parse_box_header(&grpl, 0).unwrap())).unwrap();
    assert_eq!(groups[0].grouping_type, *b"altr");
    assert_eq!(groups[0].entity_ids, vec![5, 6]);

    let url = full_boxed(b"url ", 0, 1, &[]);
    let mut d = 1u32.to_be_bytes().to_vec();
    d.extend(url);
    let dinf = boxed(b"dinf", &full_boxed(b"dref", 0, 0, &d));
    let drefs = parse_dinf(payload(&dinf, &parse_box_header(&dinf, 0).unwrap())).unwrap();
    assert!(drefs[0].self_contained);
}

#[test]
fn multiple_ipma_boxes_concatenate_but_same_key_is_rejected() {
    let props = [boxed(b"ispe", &[0; 12]), boxed(b"pixi", &[0; 5])];
    let mut ipco = Vec::new();
    for p in &props {
        ipco.extend_from_slice(p);
    }
    let mut row_a = 1u32.to_be_bytes().to_vec();
    row_a.extend_from_slice(&1u16.to_be_bytes());
    row_a.push(1);
    row_a.push(0x01);
    let mut row_b = 1u32.to_be_bytes().to_vec();
    row_b.extend_from_slice(&1u32.to_be_bytes());
    row_b.push(1);
    row_b.extend_from_slice(&0x8002u16.to_be_bytes());
    let mut body = boxed(b"ipco", &ipco);
    body.extend(full_boxed(b"ipma", 0, 0, &row_a));
    body.extend(full_boxed(b"ipma", 1, 1, &row_b));
    let m = meta_box(&[hdlr_pict(), boxed(b"iprp", &body)]);
    let h = parse_box_header(&m, 0).unwrap();
    let meta = Meta::parse(payload(&m, &h)).unwrap();
    let p = meta.properties_of(1);
    assert_eq!(p.len(), 2);
    assert_eq!(&p[1].1.box_type, b"pixi");
    assert!(p[1].2);

    let mut body = boxed(b"ipco", &ipco);
    body.extend(full_boxed(b"ipma", 0, 0, &row_a));
    body.extend(full_boxed(b"ipma", 0, 0, &row_a));
    let m = meta_box(&[hdlr_pict(), boxed(b"iprp", &body)]);
    let h = parse_box_header(&m, 0).unwrap();
    assert!(Meta::parse(payload(&m, &h)).is_err());
}
