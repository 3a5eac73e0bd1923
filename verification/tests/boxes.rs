use oxideav_heif::boxes::write::{boxed, full_boxed};
use oxideav_heif::boxes::{
    fourcc_str, iter_boxes, parse_box_header, parse_full_box, payload, walk_boxes, Reader,
};

#[test]
fn walks_two_boxes() {
    let mut buf = boxed(b"ftyp", &[0u8; 24]);
    buf.extend(boxed(b"meta", &[]));
    let hs = iter_boxes(&buf).collect().unwrap();
    assert_eq!(hs.len(), 2);
    assert_eq!(&hs[0].box_type, b"ftyp");
    assert_eq!(hs[0].total_len(), 32);
    assert_eq!(&hs[1].box_type, b"meta");
    assert_eq!(hs[1].payload_len, 0);
    assert_eq!(hs[1].start, 32);
}

#[test]
fn size_zero_extends_to_end() {
    let mut buf = 0u32.to_be_bytes().to_vec();
    buf.extend_from_slice(b"mdat");
    buf.extend_from_slice(&[1, 2, 3]);
    let h = parse_box_header(&buf, 0).unwrap();
    assert_eq!(h.payload_len, 3);
}

#[test]
fn largesize_header() {
    let mut buf = 1u32.to_be_bytes().to_vec();
    buf.extend_from_slice(b"mdat");
    buf.extend_from_slice(&20u64.to_be_bytes());
    buf.extend_from_slice(&[9; 4]);
    let h = parse_box_header(&buf, 0).unwrap();
    assert_eq!(h.payload_start, 16);
    assert_eq!(h.payload_len, 4);
    // A largesize below 16 is rejected.
    let mut bad = 1u32.to_be_bytes().to_vec();
    bad.extend_from_slice(b"mdat");
    bad.extend_from_slice(&8u64.to_be_bytes());
    assert!(parse_box_header(&bad, 0).is_err());
}

#[test]
fn uuid_extended_type() {
    let mut body = vec![0xAB; 16];
    body.extend_from_slice(&[1, 2]);
    let buf = boxed(b"uuid", &body);
    let h = parse_box_header(&buf, 0).unwrap();
    assert_eq!(h.user_type, Some([0xAB; 16]));
    assert_eq!(h.payload_len, 2);
}

#[test]
fn rejects_truncated_and_overflowing() {
    let buf = [0, 0, 0, 0x20, b'f', b't', b'y', b'p', 0, 0];
    assert!(parse_box_header(&buf, 0).is_err());
    assert!(parse_box_header(&buf, usize::MAX - 2).is_err());
    let tiny = [0, 0, 0, 4, b'x', b'x', b'x', b'x'];
    assert!(parse_box_header(&tiny, 0).is_err());
}

#[test]
fn iterator_stops_after_error() {
    let mut buf = boxed(b"ftyp", &[0u8; 4]);
    buf.extend_from_slice(&[0, 0, 0, 0xFF, b'b', b'a', b'd', b'!']);
    let mut it = iter_boxes(&buf);
    assert!(it.next().unwrap().is_ok());
    assert!(it.next().unwrap().is_err());
    assert!(it.next().is_none());
}

#[test]
fn reader_primitives() {
    let data = [0x01, 0x02, 0x03, 0x04, 0x05, b'a', b'b', 0, 0xFF];
    let mut r = Reader::new(&data);
    assert_eq!(r.u8("a").unwrap(), 1);
    assert_eq!(r.u16("b").unwrap(), 0x0203);
    assert_eq!(r.u16("c").unwrap(), 0x0405);
    assert_eq!(r.cstr("s").unwrap(), "ab");
    assert_eq!(r.remaining(), 1);
    assert!(r.u16("x").is_err());
    assert_eq!(r.uint(0, "z").unwrap(), 0);
    assert!(r.uint(3, "z").is_err());
}

#[test]
fn cstr_without_terminator_runs_to_end() {
    let data = b"hello";
    let mut r = Reader::new(data);
    assert_eq!(r.cstr("s").unwrap(), "hello");
    assert!(r.is_empty());
}

#[test]
fn walk_descends_into_meta_and_containers() {
    let inner = boxed(b"hdlr", &[0u8; 20]);
    let mut meta_body = vec![0u8; 4];
    meta_body.extend(&inner);
    let mut file = boxed(b"ftyp", &[0u8; 8]);
    file.extend(boxed(b"meta", &meta_body));
    let stbl = boxed(b"stbl", &boxed(b"stts", &[0u8; 8]));
    let minf = boxed(b"minf", &stbl);
    let mdia = boxed(b"mdia", &minf);
    let trak = boxed(b"trak", &mdia);
    file.extend(boxed(b"moov", &trak));
    let w = walk_boxes(&file, 16, 1024).unwrap();
    let types: Vec<String> = w.iter().map(|e| fourcc_str(&e.header.box_type)).collect();
    assert_eq!(
        types,
        ["ftyp", "meta", "hdlr", "moov", "trak", "mdia", "minf", "stbl", "stts"]
    );
    assert_eq!(w[2].depth, 1);
    assert_eq!(w[8].depth, 5);
    assert!(walk_boxes(&file, 2, 1024).is_err());
    assert!(walk_boxes(&file, 16, 3).is_err());
}

#[test]
fn full_box_writer_round_trips() {
    let v = full_boxed(b"pitm", 0, 0, &[0, 1]);
    let h = parse_box_header(&v, 0).unwrap();
    let (ver, flags, body) = parse_full_box(payload(&v, &h)).unwrap();
    assert_eq!((ver, flags), (0, 0));
    assert_eq!(body, &[0, 1]);
}
