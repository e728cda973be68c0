use koushou::depres::Dependency;
use koushou::depres::DepresError;
use koushou::depres::PackageId;
use koushou::depres::PackageMetadata;
use koushou::depres::PackageUniverse;
use koushou::depres::VersionPredicate;

fn meta(name: &str, version: &str, arch: &str, flavour: &str, deps: &[&str]) -> PackageMetadata {
    PackageMetadata {
        id: PackageId {
            name: name.to_string(),
            version: version.to_string(),
            arch: arch.to_string(),
            flavour: flavour.to_string(),
        },
        url: format!("https://example.invalid/{}", name),
        sha256: "0".repeat(64),
        filename: format!("{}-{}-{}.kpkg", name, version, arch),
        depends: deps.iter().map(|d| Dependency::parse(d)).collect(),
    }
}

fn universe(entries: Vec<PackageMetadata>) -> PackageUniverse {
    let mut u = PackageUniverse::new();
    for e in entries {
        u.add_entry(e);
    }
    u
}

#[test]
fn key_formats_name_version_arch() {
    let id = PackageId {
        name: "bash".to_string(),
        version: "5.2".to_string(),
        arch: "x86_64".to_string(),
        flavour: "glibc-systemd".to_string(),
    };
    assert_eq!(id.key(), "bash-5.2-x86_64");
}

#[test]
fn predicate_matching_is_lexicographic() {
    assert!(VersionPredicate::Any.matches("anything"));
    assert!(VersionPredicate::Exact("1.0".to_string()).matches("1.0"));
    assert!(!VersionPredicate::Exact("1.0".to_string()).matches("1.1"));
    assert!(VersionPredicate::GreaterOrEqual("2.38".to_string()).matches("2.38"));
    assert!(VersionPredicate::GreaterOrEqual("2.38".to_string()).matches("2.39"));
    assert!(!VersionPredicate::GreaterOrEqual("2.38".to_string()).matches("2.37"));
    // byte-wise comparison: "2.10" sorts below "2.9"
    assert!(!VersionPredicate::GreaterOrEqual("2.9".to_string()).matches("2.10"));
    assert!(VersionPredicate::LessThan("3".to_string()).matches("2.99"));
    assert!(!VersionPredicate::LessThan("3".to_string()).matches("3"));
}

#[test]
fn dependency_parsing() {
    let d = Dependency::parse("glibc>=2.38");
    assert_eq!(d.name, "glibc");
    assert_eq!(d.predicate, VersionPredicate::GreaterOrEqual("2.38".to_string()));

    let d = Dependency::parse("bash");
    assert_eq!(d.name, "bash");
    assert_eq!(d.predicate, VersionPredicate::Any);

    let d = Dependency::parse("x=1.0");
    assert_eq!(d.name, "x");
    assert_eq!(d.predicate, VersionPredicate::Exact("1.0".to_string()));

    let d = Dependency::parse("y<2");
    assert_eq!(d.name, "y");
    assert_eq!(d.predicate, VersionPredicate::LessThan("2".to_string()));

    let d = Dependency::parse("z!=2");
    assert_eq!(d.name, "z");
    assert_eq!(d.predicate, VersionPredicate::Exact("!=2".to_string()));

    // no leading name character: the whole string stands for itself
    let d = Dependency::parse(">=1.0");
    assert_eq!(d.name, ">=1.0");
    assert_eq!(d.predicate, VersionPredicate::Any);
}

#[test]
fn resolution_closure_contains_dependencies() {
    let u = universe(vec![
        meta("a", "1", "x86_64", "glibc", &["b"]),
        meta("b", "1", "x86_64", "glibc", &["c"]),
        meta("c", "1", "x86_64", "glibc", &[]),
    ]);
    let sol = u.resolve(&vec!["a".to_string()], "glibc", "x86_64").unwrap();
    let mut names: Vec<String> = sol.packages.iter().map(|p| p.name.clone()).collect();
    names.sort();
    assert_eq!(names, vec!["a", "b", "c"]);
}

#[test]
fn resolution_is_deterministic() {
    let build = || {
        universe(vec![
            meta("a", "1", "x86_64", "glibc", &["b"]),
            meta("b", "1", "x86_64", "glibc", &[]),
            meta("b", "2", "x86_64", "glibc", &[]),
        ])
    };
    let s1 = build().resolve(&vec!["a".to_string()], "glibc", "x86_64").unwrap();
    let s2 = build().resolve(&vec!["a".to_string()], "glibc", "x86_64").unwrap();
    let mut n1: Vec<String> = s1.packages.iter().map(|p| p.key()).collect();
    let mut n2: Vec<String> = s2.packages.iter().map(|p| p.key()).collect();
    n1.sort();
    n2.sort();
    assert_eq!(n1, n2);
}

#[test]
fn cycle_is_detected() {
    let u = universe(vec![
        meta("a", "1", "x86_64", "glibc", &["b"]),
        meta("b", "1", "x86_64", "glibc", &["a"]),
    ]);
    let err = u.resolve(&vec!["a".to_string()], "glibc", "x86_64").unwrap_err();
    match err {
        DepresError::CircularDependency(n) => {
            assert!(n == "a" || n == "b");
        }
        other => panic!("expected CircularDependency, got {:?}", other),
    }
}

#[test]
fn diamond_dependencies_are_not_a_cycle() {
    let u = universe(vec![
        meta("a", "1", "x86_64", "glibc", &["b", "c"]),
        meta("b", "1", "x86_64", "glibc", &["d"]),
        meta("c", "1", "x86_64", "glibc", &["d"]),
        meta("d", "1", "x86_64", "glibc", &[]),
    ]);
    let sol = u.resolve(&vec!["a".to_string()], "glibc", "x86_64").unwrap();
    assert_eq!(sol.packages.len(), 4);
    let ord = sol.install_order().unwrap();
    let names: Vec<&str> = ord.iter().map(|m| m.id.name.as_str()).collect();
    let pos = |n: &str| names.iter().position(|x| *x == n).unwrap();
    assert!(pos("d") < pos("b") && pos("d") < pos("c"));
    assert!(pos("b") < pos("a") && pos("c") < pos("a"));
}

#[test]
fn missing_package_is_reported_by_name() {
    let u = universe(vec![meta("a", "1", "x86_64", "glibc", &[])]);
    let err = u.resolve(&vec!["nosuch".to_string()], "glibc", "x86_64").unwrap_err();
    assert_eq!(err, DepresError::PackageNotFound("nosuch".to_string()));
}

#[test]
fn flavour_isolation_yields_not_found() {
    let u = universe(vec![meta("x", "1", "x86_64", "musl", &[])]);
    let err = u.resolve(&vec!["x".to_string()], "glibc", "x86_64").unwrap_err();
    assert_eq!(err, DepresError::PackageNotFound("x".to_string()));
}

#[test]
fn highest_version_wins_and_ties_prefer_earlier_repo() {
    let u = universe(vec![
        meta("p", "1.2", "x86_64", "glibc", &[]),
        meta("p", "1.10", "x86_64", "glibc", &[]),
        meta("p", "1.9", "x86_64", "glibc", &[]),
    ]);
    let sol = u.resolve(&vec!["p".to_string()], "glibc", "x86_64").unwrap();
    // lexicographically "1.9" > "1.2" > "1.10"
    assert_eq!(sol.packages[0].version, "1.9");

    let mut tied = universe(vec![meta("q", "1", "x86_64", "glibc", &[])]);
    let mut second = meta("q", "1", "x86_64", "glibc", &[]);
    second.url = "https://example.invalid/other".to_string();
    tied.add_entry(second);
    let sol = tied.resolve(&vec!["q".to_string()], "glibc", "x86_64").unwrap();
    assert_eq!(sol.url_of("q").unwrap(), "https://example.invalid/q");
}

#[test]
fn version_constraint_violation_is_reported() {
    let u = universe(vec![
        meta("a", "1", "x86_64", "glibc", &["b>=2"]),
        meta("b", "1", "x86_64", "glibc", &[]),
    ]);
    let err = u.resolve(&vec!["a".to_string()], "glibc", "x86_64").unwrap_err();
    assert_eq!(err, DepresError::VersionConstraint("b".to_string()));
}

#[test]
fn satisfied_version_constraint_resolves() {
    let u = universe(vec![
        meta("a", "1", "x86_64", "glibc", &["b>=2"]),
        meta("b", "2.1", "x86_64", "glibc", &[]),
    ]);
    let sol = u.resolve(&vec!["a".to_string()], "glibc", "x86_64").unwrap();
    assert_eq!(sol.packages.len(), 2);
}

#[test]
fn install_order_puts_dependencies_first() {
    let u = universe(vec![
        meta("a", "1", "x86_64", "glibc", &["b"]),
        meta("b", "1", "x86_64", "glibc", &["c"]),
        meta("c", "1", "x86_64", "glibc", &[]),
    ]);
    let sol = u.resolve(&vec!["a".to_string()], "glibc", "x86_64").unwrap();
    let ord = sol.install_order().unwrap();
    let names: Vec<&str> = ord.iter().map(|m| m.id.name.as_str()).collect();
    let pos = |n: &str| names.iter().position(|x| *x == n).unwrap();
    assert_eq!(names.len(), 3);
    assert!(pos("c") < pos("b"));
    assert!(pos("b") < pos("a"));
}

#[test]
fn install_order_reports_cycles_in_hand_built_solutions() {
    // the resolver never emits a cyclic solution; build one by hand
    let selections = vec![
        meta("a", "1", "x86_64", "glibc", &["b"]),
        meta("b", "1", "x86_64", "glibc", &["a"]),
    ];
    let packages = selections.iter().map(|m| m.id.clone()).collect();
    let sol = koushou::depres::ResolutionSolution { packages, selections };
    let err = sol.install_order().unwrap_err();
    assert!(matches!(err, DepresError::CircularDependency(_)));
}

#[test]
fn solution_lookup_reports_url_and_digest() {
    let u = universe(vec![meta("a", "1", "x86_64", "glibc", &[])]);
    let sol = u.resolve(&vec!["a".to_string()], "glibc", "x86_64").unwrap();
    assert_eq!(sol.url_of("a").unwrap(), "https://example.invalid/a");
    assert_eq!(sol.sha256_of("a").unwrap(), &"0".repeat(64));
    assert!(sol.url_of("zzz").is_none());
}
