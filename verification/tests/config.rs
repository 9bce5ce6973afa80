use manga2epub::config::{is_supported_configuration_version, CONFIGURATION_VERSION};

#[test]
fn accepts_only_the_current_configuration_version() {
    assert_eq!(CONFIGURATION_VERSION, 1);
    assert!(is_supported_configuration_version(1));
    assert!(!is_supported_configuration_version(0));
    assert!(!is_supported_configuration_version(2));
}
