use oxideav_heif::parse;

#[test]
fn empty_input_is_rejected() {
    assert!(parse(b"").is_err());
}
