use binnmu_excuses::version::{PackageVersion, ParseError, VersionError};

#[test]
fn conversion() {
    let version = PackageVersion::try_from("2:1.0+dfsg-1").unwrap();
    assert_eq!(version.epoch(), Some(2));
    assert_eq!(version.upstream_version(), "1.0+dfsg");
    assert_eq!(version.debian_revision(), Some("1"));
}

#[test]
fn epoch_compare() {
    let version1 = PackageVersion::try_from("2.0-1").unwrap();
    let version2 = PackageVersion::try_from("2:1.0+dfsg-1").unwrap();

    assert!(version2.has_epoch());
    assert!(!version1.has_epoch());
    assert!(version1 < version2);
}

#[test]
fn zero_epoch_compare() {
    let version1 = PackageVersion::try_from("2.0-1").unwrap();
    let version2 = PackageVersion::try_from("0:2.0-1").unwrap();

    assert_eq!(version1, version2);
}

#[test]
fn invalid_epoch() {
    assert!(PackageVersion::try_from("-1:1.0-1").is_err());
    assert!(PackageVersion::try_from(":1.0-1").is_err());
    assert!(PackageVersion::try_from("a1:1.0-1").is_err());
}

#[test]
fn invalid_upstream_version() {
    assert!(PackageVersion::try_from("-1").is_err());
    assert!(PackageVersion::try_from("0:-1").is_err());
}

#[test]
fn multi_dash() {
    let version = PackageVersion::try_from("1.0-2-1").unwrap();
    assert_eq!(version.upstream_version(), "1.0-2");
    assert_eq!(version.debian_revision(), Some("1"));
}

#[test]
fn error_kinds() {
    assert_eq!(
        PackageVersion::parse("a1:1.0-1").unwrap_err(),
        ParseError::InvalidVersion(VersionError::InvalidEpoch)
    );
    assert_eq!(
        PackageVersion::parse("0:-1").unwrap_err(),
        ParseError::InvalidVersion(VersionError::InvalidUpstreamVersion)
    );
    assert_eq!(
        PackageVersion::parse("1.0-").unwrap_err(),
        ParseError::InvalidVersion(VersionError::InvalidDebianRevision)
    );
    assert_eq!(
        PackageVersion::parse("1.0-a_b").unwrap_err(),
        ParseError::InvalidVersion(VersionError::InvalidDebianRevision)
    );
    assert_eq!(
        PackageVersion::new(None, "", None).unwrap_err(),
        VersionError::InvalidUpstreamVersion
    );
    assert_eq!(VersionError::InvalidEpoch.to_string(), "invalid epoch");
}

#[test]
fn epoch_limits() {
    assert_eq!(
        PackageVersion::parse("4294967295:1.0").unwrap().epoch(),
        Some(4294967295)
    );
    assert!(PackageVersion::parse("4294967296:1.0").is_err());
    assert_eq!(PackageVersion::parse("+3:1.0").unwrap().epoch(), Some(3));
    assert_eq!(PackageVersion::parse("007:1.0").unwrap().epoch(), Some(7));
    assert_eq!(PackageVersion::parse("1.0").unwrap().epoch(), None);
    assert_eq!(PackageVersion::parse("1.0").unwrap().epoch_or_0(), 0);
}

#[test]
fn last_colon_splits_epoch() {
    assert_eq!(
        PackageVersion::parse("1:2:3").unwrap_err(),
        ParseError::InvalidVersion(VersionError::InvalidEpoch)
    );
}

#[test]
fn render_canonical() {
    let v = PackageVersion::new(None, "1.0", Some("2")).unwrap();
    assert_eq!(v.to_string(), "1.0-2");
    assert!(!v.has_epoch());
    assert!(!v.is_native());
    let v = PackageVersion::new(Some(1), "0.2", Some("1.1")).unwrap();
    assert_eq!(v.to_string(), "1:0.2-1.1");
    assert!(v.has_epoch());
    let v = PackageVersion::new(Some(0), "2.0~rc1", None).unwrap();
    assert_eq!(v.to_string(), "0:2.0~rc1");
    assert!(v.is_native());
    assert_eq!(
        PackageVersion::parse("+10:1.0-2-1").unwrap().to_string(),
        "10:1.0-2-1"
    );
}

#[test]
fn parse_render_parse() {
    for text in ["2:1.0+dfsg-1", "1.0-2-1", "007:3.4~beta", "0:1-1", "1.0"] {
        let v = PackageVersion::parse(text).unwrap();
        let again = PackageVersion::parse(&v.to_string()).unwrap();
        assert_eq!(v, again);
        assert_eq!(v.epoch(), again.epoch());
    }
    assert_eq!(
        PackageVersion::parse("0:1.2-3").unwrap(),
        PackageVersion::parse("1.2-3").unwrap()
    );
}

#[test]
fn unicode_letters_are_alphanumeric() {
    assert!(PackageVersion::parse("1.0é-1").is_ok());
    assert!(PackageVersion::parse("1.0!-1").is_err());
    assert!(PackageVersion::parse("1 0-1").is_err());
}

#[test]
fn revision_is_compared() {
    assert_ne!(
        PackageVersion::parse("1.0-1").unwrap(),
        PackageVersion::parse("1.0-2").unwrap()
    );
    assert_ne!(
        PackageVersion::parse("1.0").unwrap(),
        PackageVersion::parse("1.0-1").unwrap()
    );
    assert_ne!(
        PackageVersion::parse("1:1.0").unwrap(),
        PackageVersion::parse("2:1.0").unwrap()
    );
}

fn v(text: &str) -> PackageVersion {
    PackageVersion::parse(text).unwrap()
}

#[test]
fn debian_order() {
    assert!(v("1.0~rc1-1") < v("1.0-1"));
    assert!(v("1.0-1") < v("1.0a-1"));
    assert!(v("1.0a-1") < v("1.0+-1"));
    assert!(v("1.9-1") < v("1.10-1"));
    assert!(v("1.0-1") < v("1.0-1.1"));
    assert!(v("1.0-1~bpo1") < v("1.0-1"));
    assert!(v("1:0.1") > v("9.9"));
    assert_eq!(v("1.0").compare(&v("1.0-0")), 0);
    assert_eq!(v("1.0").compare(&v("1.00")), 0);
    assert_eq!(v("1.0").partial_cmp(&v("1.00")), None);
    assert_eq!(v("1.0").partial_cmp(&v("0:1.0")), Some(std::cmp::Ordering::Equal));
    assert_eq!(v("2.0").compare(&v("10.0")), -1);
    assert_eq!(v("10.0").compare(&v("2.0")), 1);
}
