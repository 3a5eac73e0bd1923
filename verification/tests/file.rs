use oxideav_heif::boxes::write::{boxed, full_boxed};
use oxideav_heif::file::{Cow, HeifFile};

fn ftyp() -> Vec<u8> {
    let mut b = b"heic".to_vec();
    b.extend_from_slice(&0u32.to_be_bytes());
    b.extend_from_slice(b"mif1");
    boxed(b"ftyp", &b)
}

fn hdlr() -> Vec<u8> {
    let mut b = vec![0u8; 4];
    b.extend_from_slice(b"pict");
    b.extend_from_slice(&[0u8; 13]);
    full_boxed(b"hdlr", 0, 0, &b)
}

fn infe(id: u16, ty: &[u8; 4]) -> Vec<u8> {
    let mut b = id.to_be_bytes().to_vec();
    b.extend_from_slice(&[0, 0]);
    b.extend_from_slice(ty);
    b.push(0);
    full_boxed(b"infe", 2, 0, &b)
}

fn iinf(entries: &[Vec<u8>]) -> Vec<u8> {
    let mut b = (entries.len() as u16).to_be_bytes().to_vec();
    for e in entries {
        b.extend_from_slice(e);
    }
    full_boxed(b"iinf", 0, 0, &b)
}

type IlocItem = (u16, u8, Vec<(u32, u32, u32)>);

/// iloc v1 with 4-byte offsets/lengths, 4-byte index.
fn iloc(items: &[IlocItem]) -> Vec<u8> {
    let mut b = vec![0x44u8, 0x04];
    b.extend_from_slice(&(items.len() as u16).to_be_bytes());
    for (id, cm, ex) in items {
        b.extend_from_slice(&id.to_be_bytes());
        b.extend_from_slice(&(*cm as u16).to_be_bytes());
        b.extend_from_slice(&[0, 0]);
        b.extend_from_slice(&(ex.len() as u16).to_be_bytes());
        for (i, o, l) in ex {
            b.extend_from_slice(&i.to_be_bytes());
            b.extend_from_slice(&o.to_be_bytes());
            b.extend_from_slice(&l.to_be_bytes());
        }
    }
    full_boxed(b"iloc", 1, 0, &b)
}

fn iref_iloc(from: u16, to: u16) -> Vec<u8> {
    let mut b = from.to_be_bytes().to_vec();
    b.extend_from_slice(&1u16.to_be_bytes());
    b.extend_from_slice(&to.to_be_bytes());
    full_boxed(b"iref", 0, 0, &boxed(b"iloc", &b))
}

fn build(meta_children: &[Vec<u8>], mdat: &[u8]) -> (Vec<u8>, usize) {
    let mut body = vec![0u8; 4];
    for c in meta_children {
        body.extend_from_slice(c);
    }
    let mut f = ftyp();
    f.extend(boxed(b"meta", &body));
    let mdat_payload_off = f.len() + 8;
    f.extend(boxed(b"mdat", mdat));
    (f, mdat_payload_off)
}

#[test]
fn resolves_file_idat_and_item_offsets() {
    let mdat = b"0123456789abcdef".to_vec();
    // Two-pass: we need the mdat offset before building iloc, so
    // build once with a placeholder to learn the offset.
    let (_, off) = build(
        &[
            hdlr(),
            iinf(&[infe(1, b"hvc1"), infe(2, b"grid"), infe(3, b"hvc1")]),
            iloc(&[
                (1, 0, vec![(0, 0, 4), (0, 12, 4)]),
                (2, 1, vec![(0, 2, 3)]),
                (3, 2, vec![(1, 1, 2)]),
            ]),
            iref_iloc(3, 1),
            boxed(b"idat", b"idat!"),
        ],
        &mdat,
    );
    let (file, off2) = build(
        &[
            hdlr(),
            iinf(&[infe(1, b"hvc1"), infe(2, b"grid"), infe(3, b"hvc1")]),
            iloc(&[
                (1, 0, vec![(0, off as u32, 4), (0, off as u32 + 12, 4)]),
                (2, 1, vec![(0, 2, 3)]),
                (3, 2, vec![(1, 1, 2)]),
            ]),
            iref_iloc(3, 1),
            boxed(b"idat", b"idat!"),
        ],
        &mdat,
    );
    assert_eq!(off, off2);
    let f = HeifFile::parse(&file).unwrap();
    assert_eq!(f.item_data(1).unwrap().as_ref(), b"0123cdef");
    assert!(matches!(f.item_data(1).unwrap(), Cow::Owned(_)));
    assert_eq!(f.item_data(2).unwrap().as_ref(), b"at!");
    assert!(matches!(f.item_data(2).unwrap(), Cow::Borrowed(_)));
    // cm=2: bytes 1..3 of item 1's concatenated data.
    assert_eq!(f.item_data(3).unwrap().as_ref(), b"12");
    assert_eq!(f.item_file_spans(1).unwrap().len(), 2);
    assert!(f.item_file_spans(2).is_err());
    assert!(!f.has_moov());
    assert!(f.primary_item().unwrap_err().to_string().contains("pitm"));
}

#[test]
fn rejects_out_of_range_and_self_reference() {
    let (file, _) = build(
        &[
            hdlr(),
            iinf(&[infe(1, b"hvc1"), infe(2, b"hvc1")]),
            iloc(&[(1, 0, vec![(0, 5000, 4)]), (2, 2, vec![(1, 0, 0)])]),
            iref_iloc(2, 2),
        ],
        b"xx",
    );
    let f = HeifFile::parse(&file).unwrap();
    assert!(f.item_data(1).is_err());
    assert!(f.item_data(2).unwrap_err().to_string().contains("itself"));
    assert!(f.item_data(9).is_err());
}

#[test]
fn zero_length_extent_runs_to_end() {
    let (_, off) = build(
        &[
            hdlr(),
            iinf(&[infe(1, b"hvc1")]),
            iloc(&[(1, 0, vec![(0, 0, 0)])]),
        ],
        b"abcdef",
    );
    let (file, _) = build(
        &[
            hdlr(),
            iinf(&[infe(1, b"hvc1")]),
            iloc(&[(1, 0, vec![(0, off as u32 + 2, 0)])]),
        ],
        b"abcdef",
    );
    let f = HeifFile::parse(&file).unwrap();
    assert_eq!(f.item_data(1).unwrap().as_ref(), b"cdef");
}

#[test]
fn requires_ftyp_first() {
    let mut file = boxed(b"free", &[]);
    file.extend(ftyp());
    assert!(HeifFile::parse(&file).is_err());
    assert!(HeifFile::parse(&boxed(b"mdat", &[1, 2])).is_err());
}
