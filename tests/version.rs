use chart_resolver::version::{parse_version, Version, VersionError};

fn version(major: i32, minor: i32, bugfix: i32, slug: &str) -> Version {
    Version { major, minor, bugfix, slug: slug.to_string() }
}

#[test]
fn parses_plain_version() {
    assert_eq!(parse_version("1.16.0"), Ok(version(1, 16, 0, "")));
}

#[test]
fn parses_version_with_slug() {
    assert_eq!(parse_version("0.1.0-slug"), Ok(version(0, 1, 0, "slug")));
}

#[test]
fn slug_keeps_hyphens_and_dots() {
    assert_eq!(parse_version("2.3.4-rc.1-x"), Ok(version(2, 3, 4, "rc.1-x")));
}

#[test]
fn leading_zeros_are_read() {
    assert_eq!(parse_version("01.002.0"), Ok(version(1, 2, 0, "")));
}

#[test]
fn rejects_two_components() {
    assert_eq!(parse_version("1.2"), Err(VersionError::InvalidFormat("1.2".to_string())));
}

#[test]
fn rejects_letters() {
    assert_eq!(parse_version("a.b.c"), Err(VersionError::InvalidFormat("a.b.c".to_string())));
}

#[test]
fn rejects_empty_suffix() {
    assert_eq!(parse_version("1.2.3-"), Err(VersionError::InvalidFormat("1.2.3-".to_string())));
}

#[test]
fn rejects_trailing_text_without_hyphen() {
    assert_eq!(parse_version("1.2.3x"), Err(VersionError::InvalidFormat("1.2.3x".to_string())));
}

#[test]
fn rejects_empty_text() {
    assert_eq!(parse_version(""), Err(VersionError::InvalidFormat(String::new())));
}

#[test]
fn largest_number_fits() {
    assert_eq!(parse_version("2147483647.0.0"), Ok(version(2147483647, 0, 0, "")));
}

#[test]
fn number_too_large_overflows() {
    assert_eq!(parse_version("2147483648.0.0"), Err(VersionError::NumericOverflow));
    assert_eq!(parse_version("1.0.99999999999-x"), Err(VersionError::NumericOverflow));
}

#[test]
fn assembles_without_slug() {
    assert_eq!(version(1, 16, 0, "").assemble_version(), "1.16.0");
}

#[test]
fn assembles_with_slug() {
    assert_eq!(version(0, 1, 0, "slug").assemble_version(), "0.1.0-slug");
    assert_eq!(version(10, 200, 3000, "a-b").assemble_version(), "10.200.3000-a-b");
}

#[test]
fn round_trip_on_values() {
    let cases = vec![
        version(0, 0, 0, ""),
        version(1, 2, 3, "beta"),
        version(2147483647, 9, 10, "rc.1-2"),
        version(7, 0, 42, "-"),
    ];
    for v in cases {
        let text = v.assemble_version();
        assert_eq!(parse_version(&text), Ok(v));
    }
}
