use oxideav_heif::MiafProfile;

#[test]
fn profiles_map_to_brands() {
    assert_eq!(MiafProfile::HevcBasic.brand(), *b"MiHB");
    assert!(MiafProfile::HevcBasic.adopts_shared_constraints());
    assert!(!MiafProfile::Miaf.adopts_shared_constraints());
}
