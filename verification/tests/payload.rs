use license_codec::payload::{build_payload, LicenseError, LicenseFields, DIGITS};

#[test]
fn payload_follows_the_grammar() {
    assert_eq!(
        build_payload("test", "10.9", 1).unwrap(),
        "1#test|109#1#103969#0#0#0#"
    );
    assert_eq!(
        build_payload("user1", "11.0", 25).unwrap(),
        "1#user1|110#25#113060#0#0#0#"
    );
}

#[test]
fn count_is_written_in_decimal() {
    assert_eq!(DIGITS, "0123456789");
    assert_eq!(
        build_payload("test", "10.9", 0).unwrap(),
        "1#test|109#0#103969#0#0#0#"
    );
    assert_eq!(
        build_payload("test", "10.9", 10).unwrap(),
        "1#test|109#10#103969#0#0#0#"
    );
    assert_eq!(
        build_payload("test", "10.9", 1090).unwrap(),
        "1#test|109#1090#103969#0#0#0#"
    );
    assert_eq!(
        build_payload("test", "10.9", u32::MAX).unwrap(),
        "1#test|109#4294967295#103969#0#0#0#"
    );
}

#[test]
fn version_components_are_taken_as_text() {
    assert_eq!(
        build_payload("test", "x.y", 1).unwrap(),
        "1#test|xy#1#x3y6y#0#0#0#"
    );
    assert_eq!(
        build_payload("test", "一.二", 1).unwrap(),
        "1#test|一二#1#一3二6二#0#0#0#"
    );
}

#[test]
fn empty_components_are_accepted() {
    assert_eq!(
        build_payload("test", ".", 1).unwrap(),
        "1#test|#1#36#0#0#0#"
    );
    assert_eq!(
        build_payload("test", "10.", 1).unwrap(),
        "1#test|10#1#1036#0#0#0#"
    );
    assert_eq!(
        build_payload("test", ".9", 1).unwrap(),
        "1#test|9#1#3969#0#0#0#"
    );
    assert_eq!(build_payload("", "1.2", 3).unwrap(), "1#|12#3#13262#0#0#0#");
}

#[test]
fn fields_hold_the_two_components() {
    let fields = LicenseFields::new("test", "10.9", 3).unwrap();
    assert_eq!(fields.identity, "test");
    assert_eq!(fields.major_version, "10");
    assert_eq!(fields.minor_version, "9");
    assert_eq!(fields.count, 3);
    assert_eq!(fields.payload(), "1#test|109#3#103969#0#0#0#");
}

#[test]
fn fields_need_exactly_one_dot() {
    assert_eq!(
        LicenseFields::new("test", "10", 1).err(),
        Some(LicenseError::InvalidVersionFormat)
    );
    assert_eq!(
        LicenseFields::new("test", "10.9.1", 1).err(),
        Some(LicenseError::InvalidVersionFormat)
    );
    assert_eq!(
        LicenseFields::new("test", "", 1).err(),
        Some(LicenseError::InvalidVersionFormat)
    );
}

#[test]
fn fields_can_be_written_directly() {
    let fields = LicenseFields {
        identity: String::from("someone"),
        major_version: String::from("22"),
        minor_version: String::from("1"),
        count: 12,
    };
    assert_eq!(fields.payload(), "1#someone|221#12#223161#0#0#0#");
}
