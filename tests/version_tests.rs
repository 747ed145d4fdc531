use arkham::error::ArkhamError;
use arkham::version::{increment, parse_version, update_version, validate_version, UpdateKind, VersionId};

fn invalid_text(r: Result<String, ArkhamError>) -> String {
    match r {
        Err(ArkhamError::InvalidVersion(t)) => t,
        other => panic!("expected InvalidVersion, got {:?}", other),
    }
}

#[test]
fn increment_minor_and_major() {
    assert_eq!(increment("3.53", UpdateKind::Minor).unwrap(), "3.54");
    assert_eq!(increment("3.99", UpdateKind::Major).unwrap(), "4.00");
}

#[test]
fn increment_minor_pads_and_overflows_past_two_digits() {
    assert_eq!(increment("2.05", UpdateKind::Minor).unwrap(), "2.06");
    assert_eq!(increment("2.8", UpdateKind::Minor).unwrap(), "2.09");
    assert_eq!(increment("3.99", UpdateKind::Minor).unwrap(), "3.100");
    assert!(validate_version("3.100").is_err());
}

#[test]
fn increment_rejects_malformed_current() {
    assert_eq!(invalid_text(increment("3", UpdateKind::Major)), "3");
}

#[test]
fn update_version_by_text_kind() {
    assert_eq!(update_version("3.53", "minor").unwrap(), "3.54");
    assert_eq!(update_version("3.53", "0").unwrap(), "3.54");
    assert_eq!(update_version("3.53", "major").unwrap(), "4.00");
    assert_eq!(update_version("3.53", "1").unwrap(), "4.00");
    assert_eq!(invalid_text(update_version("3.53", "patch")), "Invalid update type");
    assert_eq!(invalid_text(update_version("x.1", "minor")), "x.1");
}

#[test]
fn parse_then_format_pads_minor() {
    for (text, shown) in [("3.53", "3.53"), ("3.5", "3.05"), ("0.0", "0.00"), ("12.07", "12.07"), ("4294967295.99", "4294967295.99")] {
        let v = parse_version(text).unwrap();
        assert_eq!(v.to_text(), shown);
    }
    assert_eq!(parse_version("3.5").unwrap(), VersionId { major: 3, minor: 5 });
}

#[test]
fn parse_rejects_malformed_text() {
    for bad in ["4", "3.5.1", "a.1", "3.b", "3.100", "3.", ".5", "", "+3.5", "3.-1", "3.005", "4294967296.1", " 3.5"] {
        match parse_version(bad) {
            Err(ArkhamError::InvalidVersion(t)) => assert_eq!(t, bad),
            other => panic!("{:?} accepted: {:?}", bad, other),
        }
    }
}

#[test]
fn validate_accepts_well_formed() {
    assert!(validate_version("3.53").is_ok());
    assert!(validate_version("0.9").is_ok());
}

#[test]
fn update_kind_from_text() {
    assert_eq!(UpdateKind::from_text("major").unwrap(), UpdateKind::Major);
    assert_eq!(UpdateKind::from_text("0").unwrap(), UpdateKind::Minor);
    assert!(UpdateKind::from_text("MAJOR").is_err());
}
