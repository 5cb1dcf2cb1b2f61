use license_codec::encoder::ALPHABET;
use license_codec::license::{generate_license, SEED_KEY};
use license_codec::payload::{build_payload, LicenseError};
use std::io::{Cursor, Read, Write};
use zip::write::FileOptions;

#[test]
fn test_generate_license() {
    let license_content = generate_license("test", "10.9", 1).unwrap();
    assert!(!license_content.is_empty());

    let mut writer = zip::ZipWriter::new(Cursor::new(Vec::new()));
    let options: FileOptions<()> = FileOptions::default()
        .compression_method(zip::CompressionMethod::Stored)
        .unix_permissions(0o644);
    writer.start_file("Pro.key", options).unwrap();
    writer.write_all(license_content.as_bytes()).unwrap();
    let packed = writer.finish().unwrap().into_inner();
    assert!(packed.len() > 0);

    let mut archive = zip::ZipArchive::new(Cursor::new(packed)).unwrap();
    assert_eq!(archive.len(), 1);

    let mut zip_file = archive.by_index(0).unwrap();
    assert_eq!(zip_file.name().unwrap(), "Pro.key");

    let mut contents = String::new();
    zip_file.read_to_string(&mut contents).unwrap();
    assert_eq!(contents, license_content);
}

#[test]
fn test_generate_license_with_different_params() {
    let license1 = generate_license("user1", "10.9", 1).unwrap();
    let license2 = generate_license("user2", "10.9", 1).unwrap();
    assert_ne!(license1, license2);

    let license3 = generate_license("test", "10.9", 1).unwrap();
    let license4 = generate_license("test", "11.0", 1).unwrap();
    assert_ne!(license3, license4);

    let license5 = generate_license("test", "10.9", 1).unwrap();
    let license6 = generate_license("test", "10.9", 2).unwrap();
    assert_ne!(license5, license6);
}

#[test]
fn test_invalid_version_format() {
    assert!(generate_license("test", "10", 1).is_err());
    assert!(generate_license("test", "10.9.1", 1).is_err());
    assert!(generate_license("test", "invalid", 1).is_err());
}

#[test]
fn invalid_versions_give_the_format_error() {
    for version in ["10", "10.9.1", "invalid", "", "..", "1.2.", ".1.2"] {
        assert_eq!(
            generate_license("test", version, 1),
            Err(LicenseError::InvalidVersionFormat)
        );
        assert_eq!(
            build_payload("test", version, 1),
            Err(LicenseError::InvalidVersionFormat)
        );
    }
}

#[test]
fn two_component_version_succeeds() {
    assert!(generate_license("test", "10.9", 1).is_ok());
    assert!(generate_license("anyone", "22.1", 7).is_ok());
}

#[test]
fn seed_key_has_its_value() {
    assert_eq!(SEED_KEY, 0x787);
}

#[test]
fn license_for_test_10_9_1() {
    assert_eq!(
        build_payload("test", "10.9", 1).unwrap(),
        "1#test|109#1#103969#0#0#0#"
    );
    let license = generate_license("test", "10.9", 1).unwrap();
    assert_eq!(license, "2sGPtsDP0kHextWerlHe7FnfxtGerh3a4tG");
    assert!(license.chars().all(|c| ALPHABET.contains(c)));
    assert!(!license.contains('='));
}

#[test]
fn licenses_for_other_fields() {
    assert_eq!(
        generate_license("user1", "10.9", 1).unwrap(),
        "2sWP70iO5RTe4F3a5tWe4tXc+F3a4tGerh3a"
    );
    assert_eq!(
        generate_license("user2", "10.9", 1).unwrap(),
        "2sWP70iO6RTe4F3a5tWe4tXc+F3a4tGerh3a"
    );
    assert_eq!(
        generate_license("test", "11.0", 1).unwrap(),
        "2sGPtsDP0kXe4tWerlXe7hnf4tGerh3a4tG"
    );
    assert_eq!(
        generate_license("test", "10.9", 2).unwrap(),
        "2sGPtsDP0kHextmerlHe7FnfxtGerh3a4tG"
    );
    assert_eq!(
        generate_license("", "22.1", 10).unwrap(),
        "2sGN6pXerlHerpne7lnf5tGerh3a4tG"
    );
    assert_eq!(
        generate_license("test", "10.9", 4294967295).unwrap(),
        "2sGPtsDP0kHextGf6FHfx53f6FXfrlHe7FnfxtGerh3a4tG"
    );
}

#[test]
fn license_with_empty_version_components() {
    assert_eq!(
        generate_license("test", ".", 1).unwrap(),
        "2sGPtsDP0sWertnfrh3a4tGerB"
    );
    assert_eq!(
        generate_license("test", "10.", 1).unwrap(),
        "2sGPtsDP0kHerl3a5h3e+tGerh3a4tG"
    );
    assert_eq!(
        generate_license("test", ".9", 1).unwrap(),
        "2sGPtsDP0E3a5t2ex5Xcrh3a4tGerB"
    );
}

#[test]
fn license_for_identity_outside_ascii() {
    assert_eq!(
        generate_license("用户", "10.9", 1).unwrap(),
        "2s2rcDurA/PN5hXcrl3a5h3ex5Xcrh3a4tGerB"
    );
}

#[test]
fn license_is_the_same_on_every_call() {
    let first = generate_license("test", "10.9", 1);
    let second = generate_license("test", "10.9", 1);
    assert_eq!(first, second);
    let failed_first = generate_license("test", "10", 1);
    let failed_second = generate_license("test", "10", 1);
    assert_eq!(failed_first, failed_second);
}

#[test]
fn delimiters_in_identity_are_not_escaped() {
    assert_eq!(
        build_payload("a|b#c", "1.2", 7).unwrap(),
        "1#a|b#c|12#7#13262#0#0#0#"
    );
    assert_eq!(
        generate_license("a|b#c", "1.2", 7).unwrap(),
        "2sWK0oyarQTe6t2frl3e65nerh3a4tGerB"
    );
}
