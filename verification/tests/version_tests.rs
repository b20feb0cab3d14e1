use skyline_update::version::{parse_version, version_lt_exec, Version};

fn ver(s: &str) -> Version {
    parse_version(s).expect("version text must parse")
}

fn lt(a: &str, b: &str) -> bool {
    version_lt_exec(&ver(a), &ver(b))
}

#[test]
fn parse_components() {
    let v = ver("1.2.3");
    assert_eq!(v.major, 1);
    assert_eq!(v.minor, 2);
    assert_eq!(v.patch, 3);
    assert_eq!(v.pre.len(), 0);
}

#[test]
fn parse_prerelease_identifiers() {
    let v = ver("1.0.0-beta.2");
    assert_eq!(v.major, 1);
    assert_eq!(v.pre.len(), 2);
    assert_eq!(v.pre[0], b"beta".to_vec());
    assert_eq!(v.pre[1], b"2".to_vec());
}

#[test]
fn parse_rejects_bad_texts() {
    assert!(parse_version("").is_none());
    assert!(parse_version("1.0").is_none());
    assert!(parse_version("abc").is_none());
    assert!(parse_version("1.0.01").is_none());
    assert!(parse_version("1.0.0-").is_none());
}

#[test]
fn precedence_on_numeric_components() {
    assert!(lt("0.9.0", "1.0.0"));
    assert!(!lt("1.0.0", "0.9.0"));
    assert!(lt("1.0.5", "1.1.0-beta"));
    assert!(lt("1.2.3", "1.2.10"));
    assert!(!lt("1.2.3", "1.2.3"));
}

#[test]
fn precedence_on_prerelease() {
    // A pre-release ranks below the plain release.
    assert!(lt("1.0.0-alpha", "1.0.0"));
    assert!(!lt("1.0.0", "1.0.0-alpha"));
    // A longer identifier list ranks above its prefix.
    assert!(lt("1.0.0-alpha", "1.0.0-alpha.1"));
    // Numeric identifiers compare numerically, not bytewise.
    assert!(lt("1.0.0-2", "1.0.0-11"));
    // Numeric identifiers rank below alphanumeric ones.
    assert!(lt("1.0.0-2", "1.0.0-alpha"));
    assert!(lt("1.0.0-alpha", "1.0.0-beta"));
}

#[test]
fn build_metadata_is_no_precedence() {
    assert!(!lt("1.0.0+a", "1.0.0+b"));
    assert!(!lt("1.0.0+b", "1.0.0+a"));
}
