use workshop_core::version::{parse_tool_version, parse_version, version_cmp, meets_minimum, ParseRule, Version};

fn v(major: u64, minor: u64, patch: u64) -> Version {
    Version { major, minor, patch, pre: vec![] }
}

fn vpre(major: u64, minor: u64, patch: u64, pre: &[&str]) -> Version {
    Version {
        major,
        minor,
        patch,
        pre: pre.iter().map(|s| s.as_bytes().to_vec()).collect(),
    }
}

#[test]
fn parses_whitespace_delimited_output() {
    let out = parse_tool_version(b"Python 3.11.2\n", ParseRule::LastSpace);
    let got = out.expect("a version should parse");
    assert_eq!(got.major, 3);
    assert_eq!(got.minor, 11);
    assert_eq!(got.patch, 2);
    assert!(got.pre.is_empty());
}

#[test]
fn parses_v_delimited_compose_output() {
    let out = parse_tool_version(b"Docker Compose version v2.36.2\n", ParseRule::LastV);
    let got = out.expect("a version should parse");
    assert_eq!(got.major, 2);
    assert_eq!(got.minor, 36);
    assert_eq!(got.patch, 2);
}

#[test]
fn parses_standalone_compose_output() {
    let out = parse_tool_version(b"docker-compose version 1.29.2, build unknown\n", ParseRule::LastSpace);
    // the trailing token is "unknown", which is no version
    assert!(out.is_none());
    let out = parse_tool_version(b"docker-compose version 1.29.2", ParseRule::LastSpace);
    let got = out.expect("a version should parse");
    assert_eq!((got.major, got.minor, got.patch), (1, 29, 2));
}

#[test]
fn output_without_separator_gives_nothing() {
    assert!(parse_tool_version(b"3.11.2", ParseRule::LastSpace).is_none());
    assert!(parse_tool_version(b"", ParseRule::LastSpace).is_none());
}

#[test]
fn garbage_token_gives_nothing() {
    assert!(parse_tool_version(b"Python three-ish\n", ParseRule::LastSpace).is_none());
}

#[test]
fn parse_version_reads_whole_string() {
    let got = parse_version(b"1.2.3").expect("a version should parse");
    assert_eq!((got.major, got.minor, got.patch), (1, 2, 3));
    assert!(parse_version(b"not-a-version").is_none());
    assert!(parse_version(b" 1.2.3").is_none());
}

#[test]
fn parse_version_splits_prerelease() {
    let got = parse_version(b"1.0.0-alpha.1").expect("a version should parse");
    assert_eq!(got.pre.len(), 2);
    assert_eq!(got.pre[0], b"alpha".to_vec());
    assert_eq!(got.pre[1], b"1".to_vec());
}

#[test]
fn ordering_by_numeric_components() {
    assert_eq!(version_cmp(&v(1, 2, 3), &v(1, 2, 3)), 0);
    assert_eq!(version_cmp(&v(1, 2, 3), &v(2, 0, 0)), -1);
    assert_eq!(version_cmp(&v(1, 10, 0), &v(1, 9, 9)), 1);
    assert_eq!(version_cmp(&v(1, 2, 10), &v(1, 2, 9)), 1);
}

#[test]
fn release_outranks_prerelease() {
    assert_eq!(version_cmp(&vpre(1, 0, 0, &["alpha"]), &v(1, 0, 0)), -1);
    assert_eq!(version_cmp(&v(1, 0, 0), &vpre(1, 0, 0, &["rc", "1"])), 1);
}

#[test]
fn prerelease_precedence_rules() {
    // numeric identifiers order numerically and below alphanumeric ones
    assert_eq!(version_cmp(&vpre(1, 0, 0, &["2"]), &vpre(1, 0, 0, &["10"])), -1);
    assert_eq!(version_cmp(&vpre(1, 0, 0, &["1"]), &vpre(1, 0, 0, &["alpha"])), -1);
    // alphanumeric identifiers order lexically
    assert_eq!(version_cmp(&vpre(1, 0, 0, &["alpha"]), &vpre(1, 0, 0, &["beta"])), -1);
    // a proper prefix orders below the longer identifier list
    assert_eq!(version_cmp(&vpre(1, 0, 0, &["alpha"]), &vpre(1, 0, 0, &["alpha", "1"])), -1);
}

#[test]
fn minimum_is_met_exactly_when_ordered() {
    // a probe reporting v1 >= v2 succeeds against minimum v2
    assert!(meets_minimum(&v(3, 11, 2), &v(3, 8, 0)));
    assert!(meets_minimum(&v(3, 8, 0), &v(3, 8, 0)));
    // and fails when the minimum is the higher of the two
    assert!(!meets_minimum(&v(3, 8, 0), &v(3, 11, 2)));
    assert!(!meets_minimum(&vpre(3, 8, 0, &["alpha"]), &v(3, 8, 0)));
}
