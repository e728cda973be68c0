use koushou::digest::Sha256Ctx;
use koushou::digest::sha256_hex;
use koushou::install::InstallError;
use koushou::install::WalkEntry;
use koushou::install::install_record;
use koushou::list::format_package_line;
use koushou::pkgdb::InstalledPackage;
use koushou::pkgdb::PackageDatabase;
use koushou::pkgdb::PkgDbError;
use koushou::removal::RemovalError;
use koushou::removal::remove_plan;
use koushou::resolve::ResolveError;
use koushou::resolve::verify_bytes;

fn sample_pkg(name: &str, files: &[&str]) -> InstalledPackage {
    InstalledPackage {
        name: name.to_string(),
        version: "0.1".to_string(),
        arch: "x86_64".to_string(),
        flavour: "glibc-systemd".to_string(),
        depends: vec!["glibc".to_string()],
        files: files.iter().map(|f| f.to_string()).collect(),
    }
}

#[test]
fn database_add_get_remove_contains() {
    let mut db = PackageDatabase::new();
    assert!(!db.contains("foo"));
    assert!(matches!(db.get("foo"), Err(PkgDbError::PackageNotFound(_))));

    db.add(sample_pkg("foo", &["usr/bin/foo"]));
    assert!(db.contains("foo"));
    assert_eq!(db.get("foo").unwrap().version, "0.1");

    let removed = db.remove("foo").unwrap();
    assert_eq!(removed.files, vec!["usr/bin/foo"]);
    assert!(!db.contains("foo"));
    assert_eq!(db.remove("foo").unwrap_err(), PkgDbError::PackageNotFound("foo".to_string()));
}

#[test]
fn database_reinstall_is_idempotent() {
    let mut once = PackageDatabase::new();
    once.add(sample_pkg("foo", &["usr/bin/foo"]));
    let mut twice = PackageDatabase::new();
    twice.add(sample_pkg("foo", &["usr/bin/foo"]));
    twice.add(sample_pkg("foo", &["usr/bin/foo"]));
    assert_eq!(once.list().len(), 1);
    assert_eq!(twice.list().len(), 1);
    assert_eq!(once.list()[0], twice.list()[0]);
}

#[test]
fn database_upsert_replaces_by_name() {
    let mut db = PackageDatabase::new();
    db.add(sample_pkg("foo", &["usr/bin/foo"]));
    let mut newer = sample_pkg("foo", &["usr/bin/foo", "usr/share/foo"]);
    newer.version = "0.2".to_string();
    db.add(newer);
    assert_eq!(db.list().len(), 1);
    assert_eq!(db.get("foo").unwrap().version, "0.2");
}

#[test]
fn removal_unlinks_recorded_files_in_reverse() {
    let mut db = PackageDatabase::new();
    db.add(sample_pkg("foo", &["usr/bin/foo", "usr/share/doc/foo"]));
    let plan = remove_plan(&mut db, "foo").unwrap();
    assert_eq!(plan, vec!["usr/share/doc/foo", "usr/bin/foo"]);
    assert!(!db.contains("foo"));
    // only the regular files are unlinked; their directories are not listed
    assert!(!plan.iter().any(|p| p == "usr/bin" || p == "usr"));
}

#[test]
fn removal_of_absent_package_fails() {
    let mut db = PackageDatabase::new();
    let err = remove_plan(&mut db, "ghost").unwrap_err();
    assert_eq!(err, RemovalError::NotInstalled("ghost".to_string()));
}

#[test]
fn install_record_lists_regular_files() {
    let text = "package \"foo\" version=\"0.1\" arch=\"x86_64\" flavor=\"glibc-systemd\"\n";
    let walk = vec![
        WalkEntry { path: "usr".to_string(), is_file: false },
        WalkEntry { path: "usr/bin".to_string(), is_file: false },
        WalkEntry { path: "usr/bin/foo".to_string(), is_file: true },
    ];
    let rec = install_record(text, true, &walk).unwrap();
    assert_eq!(rec.name, "foo");
    assert_eq!(rec.flavour, "glibc-systemd");
    assert_eq!(rec.files, vec!["usr/bin/foo"]);
}

#[test]
fn install_record_requires_payload_archive() {
    let text = "package \"foo\" version=\"0.1\" arch=\"x86_64\" flavor=\"glibc-systemd\"\n";
    let err = install_record(text, false, &Vec::new()).unwrap_err();
    assert_eq!(err, InstallError::MissingFilesTar);
}

#[test]
fn install_record_rejects_bad_manifest() {
    let err = install_record("nonsense {", true, &Vec::new()).unwrap_err();
    assert!(matches!(err, InstallError::PackageParse(_)));
}

#[test]
fn listing_line_format() {
    let p = sample_pkg("foo", &[]);
    assert_eq!(format_package_line(&p), "foo-0.1 (x86_64)");
}

#[test]
fn sha256_matches_known_digest() {
    let hex = sha256_hex(&b"abc".to_vec());
    assert_eq!(hex, "ba7816bf8f01cfea414140de5dae2223b00361a396177a9cb410ff61f20015ad");
}

#[test]
fn sha256_streaming_equals_one_shot() {
    let mut ctx = Sha256Ctx::new();
    ctx.update(b"hello ");
    ctx.update(b"world");
    let streamed = ctx.finalize_hex();
    assert_eq!(streamed, sha256_hex(&b"hello world".to_vec()));
}

#[test]
fn digest_gate_rejects_mismatch() {
    let expected = sha256_hex(&b"right bytes".to_vec());
    let err = verify_bytes("bash-5.2-x86_64.kpkg", &expected, &b"wrong bytes".to_vec())
        .unwrap_err();
    match err {
        ResolveError::Sha256Mismatch { filename, expected: x, actual } => {
            assert_eq!(filename, "bash-5.2-x86_64.kpkg");
            assert_eq!(x, expected);
            assert_eq!(actual, sha256_hex(&b"wrong bytes".to_vec()));
        }
        other => panic!("expected Sha256Mismatch, got {:?}", other),
    }
}

#[test]
fn digest_gate_accepts_match() {
    let data = b"payload".to_vec();
    let expected = sha256_hex(&data);
    assert!(verify_bytes("p.kpkg", &expected, &data).is_ok());
}
