use koushou::strutil::to_hex;
use koushou::strutil::trim;
use koushou::strutil::trim_end_slashes;
use koushou::sync::RepoDatabase;
use koushou::sync::RepoPackage;
use koushou::sync::SyncAction;
use koushou::sync::SyncError;
use koushou::sync::check_arch;
use koushou::sync::decode_repo_db;
use koushou::sync::package_url;
use koushou::sync::repo_base;
use koushou::sync::repo_db_url;
use koushou::sync::repo_fetch_decision;

fn sample_row(version: &str) -> RepoPackage {
    RepoPackage {
        version: version.to_string(),
        arch: "x86_64".to_string(),
        flavor: "glibc".to_string(),
        filename: format!("pkg-{}-x86_64.kpkg", version),
        sha256: "ab".repeat(32),
        depends: vec![],
    }
}

#[test]
fn fetch_decision_skips_missing_repo() {
    assert_eq!(repo_fetch_decision(404), SyncAction::Skip);
    assert_eq!(repo_fetch_decision(500), SyncAction::Skip);
    assert_eq!(repo_fetch_decision(200), SyncAction::Store);
    assert_eq!(repo_fetch_decision(204), SyncAction::Store);
}

#[test]
fn arch_gate_accepts_known_architectures() {
    assert_eq!(check_arch("x86_64").unwrap(), "x86_64");
    assert_eq!(check_arch("aarch64").unwrap(), "aarch64");
    assert_eq!(
        check_arch("riscv64").unwrap_err(),
        SyncError::UnsupportedArch("riscv64".to_string())
    );
}

#[test]
fn url_construction() {
    assert_eq!(
        repo_db_url(repo_base(), "glibc", "core", "x86_64"),
        "https://seiryolinux.github.io/repo/glibc/core/x86_64/core.db.zst"
    );
    assert_eq!(
        package_url("glibc", "extra", "aarch64", "pkg-1.0-aarch64.kpkg"),
        "https://seiryolinux.github.io/repo/glibc/extra/aarch64/pkg-1.0-aarch64.kpkg"
    );
}

#[test]
fn sync_round_trip_decodes_and_indexes() {
    let toml_text = r#"[pkg]
version = "1.0"
arch = "x86_64"
flavor = "glibc"
filename = "pkg-1.0-x86_64.kpkg"
sha256 = "abababababababababababababababababababababababababababababababab"
depends = []
"#;
    let compressed = zstd::stream::encode_all(toml_text.as_bytes(), 3).unwrap();
    let decoded = decode_repo_db(&compressed).unwrap();
    assert_eq!(decoded, toml_text);

    let db = RepoDatabase { packages: vec![("pkg".to_string(), sample_row("1.0"))] };
    assert!(db.check());
    let mut universe = koushou::depres::PackageUniverse::new();
    db.add_to_universe(&mut universe, "core");
    let sol = universe.resolve(&vec!["pkg".to_string()], "glibc", "x86_64").unwrap();
    assert_eq!(sol.packages.len(), 1);
    assert_eq!(
        sol.url_of("pkg").unwrap(),
        "https://seiryolinux.github.io/repo/glibc/core/x86_64/pkg-1.0-x86_64.kpkg"
    );
}

#[test]
fn decode_rejects_garbage() {
    assert!(decode_repo_db(&b"not zstd at all".to_vec()).is_err());
}

#[test]
fn validation_rejects_bad_rows() {
    let good = RepoDatabase { packages: vec![("pkg".to_string(), sample_row("1.0"))] };
    assert!(good.check());

    let mut bad_name = good.clone();
    bad_name.packages[0].0 = "bad name!".to_string();
    assert!(!bad_name.check());

    let mut bad_sha = good.clone();
    bad_sha.packages[0].1.sha256 = "XYZ".to_string();
    assert!(!bad_sha.check());
}

#[test]
fn trimming_helpers() {
    assert_eq!(trim("  glibc-systemd\n"), "glibc-systemd");
    assert_eq!(trim("\t \r\n"), "");
    assert_eq!(trim("plain"), "plain");
    assert_eq!(trim_end_slashes("https://m.example///"), "https://m.example");
    assert_eq!(trim_end_slashes("https://m.example"), "https://m.example");
}

#[test]
fn hex_encoding_is_lowercase_two_digits_per_byte() {
    assert_eq!(to_hex(&vec![0x00u8, 0x0f, 0xa5, 0xff]), "000fa5ff");
    assert_eq!(to_hex(&Vec::new()), "");
}
