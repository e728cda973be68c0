use koushou::mirror::Mirror;
use koushou::mirror::MirrorError;
use koushou::package::Package;
use koushou::package::PackageParseError;

#[test]
fn manifest_parses_all_fields() {
    let text = r#"package "hello" version="1.0" arch="x86_64" flavor="glibc-systemd" {
  depends "glibc"
  depends "zlib>=1.3"
  homepage "https://example.invalid/hello"
  license "MIT"
}
"#;
    let p = Package::from_kdl(text).unwrap();
    assert_eq!(p.name, "hello");
    assert_eq!(p.version, "1.0");
    assert_eq!(p.arch, "x86_64");
    assert_eq!(p.flavor, "glibc-systemd");
    assert_eq!(p.depends, vec!["glibc", "zlib>=1.3"]);
    assert_eq!(p.homepage.as_deref(), Some("https://example.invalid/hello"));
    assert_eq!(p.license.as_deref(), Some("MIT"));
}

#[test]
fn manifest_unknown_children_are_ignored() {
    let text = r#"package "x" version="1" arch="a" flavor="f" {
  maintainer "nobody"
}
"#;
    let p = Package::from_kdl(text).unwrap();
    assert!(p.depends.is_empty());
    assert!(p.homepage.is_none());
    assert!(p.license.is_none());
}

#[test]
fn manifest_missing_package_node() {
    let err = Package::from_kdl("other \"x\"\n").unwrap_err();
    assert_eq!(err, PackageParseError::MissingPackageNode);
}

#[test]
fn manifest_missing_name() {
    let err = Package::from_kdl("package version=\"1\" arch=\"a\" flavor=\"f\"\n").unwrap_err();
    assert_eq!(err, PackageParseError::MissingName);
}

#[test]
fn manifest_missing_property() {
    let err = Package::from_kdl("package \"x\" arch=\"a\" flavor=\"f\"\n").unwrap_err();
    assert_eq!(err, PackageParseError::MissingProperty("version".to_string()));
}

#[test]
fn manifest_non_string_property_is_invalid() {
    let err = Package::from_kdl("package \"x\" version=7 arch=\"a\" flavor=\"f\"\n").unwrap_err();
    assert_eq!(err, PackageParseError::InvalidPropertyValue("version".to_string()));
}

#[test]
fn manifest_bad_syntax_is_a_parse_error() {
    let err = Package::from_kdl("package \"x\" version=\"1\" {").unwrap_err();
    assert_eq!(err, PackageParseError::Parse);
}

#[test]
fn mirror_sort_by_priority_then_filter_active() {
    let text = r#"mirror "m3" url="https://three" priority=3
mirror "m1" url="https://one" priority=1
mirror "m5" url="https://five" priority=5 active=#false
"#;
    let mirrors = Mirror::from_kdl(text).unwrap();
    let names: Vec<&str> = mirrors.iter().map(|m| m.name.as_str()).collect();
    assert_eq!(names, vec!["m3", "m1"]);
    assert_eq!(mirrors[0].priority, 3);
}

#[test]
fn mirror_defaults() {
    let mirrors = Mirror::from_kdl("mirror \"m\" url=\"https://m\"\n").unwrap();
    assert_eq!(mirrors.len(), 1);
    assert_eq!(mirrors[0].priority, 0);
    assert_eq!(mirrors[0].protocol, "https");
    assert_eq!(mirrors[0].region, "global");
    assert!(mirrors[0].active);
}

#[test]
fn mirror_stable_order_on_equal_priorities() {
    let text = r#"mirror "first" url="https://a" priority=2
mirror "second" url="https://b" priority=2
"#;
    let mirrors = Mirror::from_kdl(text).unwrap();
    let names: Vec<&str> = mirrors.iter().map(|m| m.name.as_str()).collect();
    assert_eq!(names, vec!["first", "second"]);
}

#[test]
fn mirror_missing_url_is_reported() {
    let err = Mirror::from_kdl("mirror \"m\" priority=1\n").unwrap_err();
    assert_eq!(err, MirrorError::MissingProperty {
        name: "m".to_string(),
        field: "url".to_string(),
    });
}

#[test]
fn mirror_repo_url_drops_trailing_slashes() {
    let m = Mirror {
        name: "m".to_string(),
        url: "https://mirror.example/".to_string(),
        priority: 0,
        protocol: "https".to_string(),
        region: "global".to_string(),
        active: true,
    };
    assert_eq!(
        m.repo_url("glibc", "core", "x86_64"),
        "https://mirror.example/glibc/core/x86_64/core.db.zst"
    );
}
