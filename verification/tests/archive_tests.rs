use std::io::Read;

use koushou::install::WalkEntry;
use koushou::install::install_record;
use koushou::pkgutil::FsEntry;
use koushou::pkgutil::FsEntryKind;
use koushou::pkgutil::PkgUtilError;
use koushou::pkgutil::build_kpkg;
use koushou::pkgutil::generate_plan;
use koushou::pkgutil::scaffold_manifest;
use koushou::pkgutil::scaffold_script;

fn entry(path: &str, kind: FsEntryKind, mode: u32, data: &[u8]) -> FsEntry {
    FsEntry {
        path: path.to_string(),
        kind,
        mode,
        data: data.to_vec(),
        link_target: None,
    }
}

fn scaffold_entries(name: &str) -> Vec<FsEntry> {
    vec![
        entry("usr", FsEntryKind::Dir, 0o755, b""),
        entry("usr/bin", FsEntryKind::Dir, 0o755, b""),
        entry(
            &format!("usr/bin/{}", name),
            FsEntryKind::File,
            0o755,
            scaffold_script(name).as_bytes(),
        ),
    ]
}

struct TarEntryOut {
    path: String,
    mode: u32,
    is_dir: bool,
    data: Vec<u8>,
}

fn read_tar(bytes: &[u8]) -> Vec<TarEntryOut> {
    let mut archive = tar::Archive::new(bytes);
    let mut out = Vec::new();
    for e in archive.entries().unwrap() {
        let mut e = e.unwrap();
        let path = e.path().unwrap().to_string_lossy().into_owned();
        let mode = e.header().mode().unwrap();
        let is_dir = e.header().entry_type().is_dir();
        let mut data = Vec::new();
        e.read_to_end(&mut data).unwrap();
        out.push(TarEntryOut { path, mode, is_dir, data });
    }
    out
}

#[test]
fn generate_refuses_existing_directory() {
    let err = generate_plan("foo", true).unwrap_err();
    assert_eq!(err, PkgUtilError::AlreadyExists("foo".to_string()));
}

#[test]
fn generate_scaffolds_manifest_and_script() {
    let (manifest, script) = generate_plan("foo", false).unwrap();
    assert_eq!(manifest, scaffold_manifest("foo"));
    assert_eq!(script, "#!/bin/sh\necho \"Hello from foo\"\n");
    // the scaffolded manifest parses to the expected identity
    let p = koushou::package::Package::from_kdl(&manifest).unwrap();
    assert_eq!(p.name, "foo");
    assert_eq!(p.version, "0.1");
    assert_eq!(p.arch, "x86_64");
    assert_eq!(p.flavor, "glibc-systemd");
    assert_eq!(p.depends, vec!["glibc"]);
    assert_eq!(p.license.as_deref(), Some("MIT"));
}

#[test]
fn build_names_artifact_from_manifest() {
    let manifest = scaffold_manifest("foo");
    let (name, _bytes) = build_kpkg(&manifest, &scaffold_entries("foo")).unwrap();
    assert_eq!(name, "foo-0.1-x86_64.kpkg");
}

#[test]
fn build_install_round_trip_preserves_payload() {
    let manifest = scaffold_manifest("foo");
    let entries = scaffold_entries("foo");
    let (_name, bytes) = build_kpkg(&manifest, &entries).unwrap();

    // outer: gzip-compressed tar with exactly the two members
    let mut gz = flate2::read::GzDecoder::new(&bytes[..]);
    let mut outer_bytes = Vec::new();
    gz.read_to_end(&mut outer_bytes).unwrap();
    let outer = read_tar(&outer_bytes);
    assert_eq!(outer.len(), 2);
    assert_eq!(outer[0].path, "package.kdl");
    assert_eq!(outer[1].path, "files.tar.zst");
    assert_eq!(outer[0].data, manifest.as_bytes());

    // inner: zstd-compressed tar of the payload tree
    let inner_bytes = zstd::stream::decode_all(&outer[1].data[..]).unwrap();
    let inner = read_tar(&inner_bytes);
    assert_eq!(inner.len(), 3);
    assert_eq!(inner[0].path, "usr");
    assert!(inner[0].is_dir);
    assert_eq!(inner[0].mode, 0o755);
    assert_eq!(inner[1].path, "usr/bin");
    assert_eq!(inner[2].path, "usr/bin/foo");
    assert_eq!(inner[2].mode, 0o755);
    assert_eq!(inner[2].data, scaffold_script("foo").as_bytes());

    // the record an install writes owns exactly the payload's regular files
    let walk: Vec<WalkEntry> = inner
        .iter()
        .map(|e| WalkEntry { path: e.path.clone(), is_file: !e.is_dir })
        .collect();
    let kdl_text = String::from_utf8(outer[0].data.clone()).unwrap();
    let rec = install_record(&kdl_text, true, &walk).unwrap();
    assert_eq!(rec.name, "foo");
    assert_eq!(rec.version, "0.1");
    assert_eq!(rec.files, vec!["usr/bin/foo"]);
}

#[test]
fn build_rebuild_is_bit_identical() {
    let manifest = scaffold_manifest("foo");
    let (_n1, b1) = build_kpkg(&manifest, &scaffold_entries("foo")).unwrap();
    let (_n2, b2) = build_kpkg(&manifest, &scaffold_entries("foo")).unwrap();
    assert_eq!(b1, b2);
}

#[test]
fn build_keeps_symlink_targets() {
    let manifest = scaffold_manifest("foo");
    let mut entries = scaffold_entries("foo");
    let mut link = entry("usr/bin/foo-alias", FsEntryKind::Symlink, 0o777, b"");
    link.link_target = Some("foo".to_string());
    entries.push(link);
    let (_name, bytes) = build_kpkg(&manifest, &entries).unwrap();

    let mut gz = flate2::read::GzDecoder::new(&bytes[..]);
    let mut outer_bytes = Vec::new();
    gz.read_to_end(&mut outer_bytes).unwrap();
    let outer = read_tar(&outer_bytes);
    let inner_bytes = zstd::stream::decode_all(&outer[1].data[..]).unwrap();

    let mut archive = tar::Archive::new(&inner_bytes[..]);
    let mut saw_link = false;
    for e in archive.entries().unwrap() {
        let e = e.unwrap();
        if e.path().unwrap().to_string_lossy() == "usr/bin/foo-alias" {
            assert!(e.header().entry_type().is_symlink());
            assert_eq!(e.link_name().unwrap().unwrap().to_string_lossy(), "foo");
            saw_link = true;
        }
    }
    assert!(saw_link);
}

#[test]
fn build_rejects_bad_manifest() {
    let err = build_kpkg("broken {", &Vec::new()).unwrap_err();
    assert!(matches!(err, PkgUtilError::Package(_)));
}

#[test]
fn build_rejects_overlong_entry_path() {
    let manifest = scaffold_manifest("foo");
    let long_name = "a".repeat(150);
    let entries = vec![entry(&long_name, FsEntryKind::File, 0o644, b"data")];
    let err = build_kpkg(&manifest, &entries).unwrap_err();
    assert!(matches!(err, PkgUtilError::Io(_)));
}

#[test]
fn build_succeeds_on_plain_tree() {
    let manifest = scaffold_manifest("foo");
    assert!(build_kpkg(&manifest, &scaffold_entries("foo")).is_ok());
    assert!(build_kpkg(&manifest, &Vec::new()).is_ok());
}

#[test]
fn build_rejects_textless_symlink_target() {
    let manifest = scaffold_manifest("foo");
    let entries = vec![entry("usr/bin/alias", FsEntryKind::Symlink, 0o777, b"")];
    let err = build_kpkg(&manifest, &entries).unwrap_err();
    assert!(matches!(err, PkgUtilError::Io(_)));
}
