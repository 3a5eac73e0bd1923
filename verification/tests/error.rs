use oxideav_heif::HeifError;

#[test]
fn display_carries_variant_and_message() {
    assert_eq!(HeifError::invalid("x").to_string(), "heif: invalid data: x");
    assert_eq!(
        HeifError::unsupported("y").to_string(),
        "heif: unsupported: y"
    );
    assert_eq!(
        HeifError::exhausted("z").to_string(),
        "heif: resource exhausted: z"
    );
    let e = HeifError::layered_hevc(7, 2);
    assert!(matches!(e, HeifError::Unsupported(_)));
    assert_eq!(e.layered_hevc_info(), Some((7, 2)));
    assert_eq!(HeifError::unsupported("x").layered_hevc_info(), None);
}
