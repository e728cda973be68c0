//! Package authoring: scaffolding a new package directory's contents
//! and building a `.kpkg` artifact.  The artifact is a gzip-compressed
//! tar of exactly two members — the manifest text and the
//! zstd-compressed payload tar — and `build_kpkg` pins its bytes as a
//! function of the manifest and the payload entries.  Walking the
//! source tree and writing the artifact to disk are the caller's.

use vstd::prelude::*;
use crate::archive::TarItemM;
use crate::archive::plain_tar_name;
use crate::strutil::is_name_char;
use crate::archive::tar_path_fits;
use crate::archive::tar_link_fits;
use crate::archive::tar_items;
use crate::archive::tar_bytes_of;
use crate::archive::tar_new;
use crate::archive::tar_append_file;
use crate::archive::tar_append_dir;
use crate::archive::tar_append_symlink;
use crate::archive::tar_finish;
use crate::archive::zstd_encode;
use crate::archive::zstd_encode_spec;
use crate::archive::gzip_encode;
use crate::archive::gzip_encode_spec;
use crate::package::Package;
use crate::package::PackageParseError;
use crate::package::manifest_of_text;

verus! {

/// Package-authoring failures.  The I/O variant carries the message of
/// an error met while writing an archive or by the caller on disk.
#[derive(Debug, Clone, PartialEq)]
pub enum PkgUtilError {
    Io(String),
    Package(PackageParseError),
    AlreadyExists(String),
    MissingMetadata(String),
    MissingFilesDir(String),
}

/// The manifest text `genpkg` scaffolds for a new package.
pub open spec fn scaffold_manifest_spec(name: Seq<char>) -> Seq<char> {
    "package \""@ + name
        + "\" version=\"0.1\" arch=\"x86_64\" flavor=\"glibc-systemd\" {\n  depends \"glibc\"\n  license \"MIT\"\n}\n"@
}

/// The stub script `genpkg` scaffolds at `files/usr/bin/<name>`.
pub open spec fn scaffold_script_spec(name: Seq<char>) -> Seq<char> {
    "#!/bin/sh\necho \"Hello from "@ + name + "\"\n"@
}

/// The scaffolded manifest text.
pub fn scaffold_manifest(name: &str) -> (r: String)
    ensures
        r@ == scaffold_manifest_spec(name@),
{
    let mut out = String::from_str("package \"");
    out.append(name);
    out.append(
        "\" version=\"0.1\" arch=\"x86_64\" flavor=\"glibc-systemd\" {\n  depends \"glibc\"\n  license \"MIT\"\n}\n");
    out
}

/// The scaffolded stub script.
pub fn scaffold_script(name: &str) -> (r: String)
    ensures
        r@ == scaffold_script_spec(name@),
{
    let mut out = String::from_str("#!/bin/sh\necho \"Hello from ");
    out.append(name);
    out.append("\"\n");
    out
}

/// What `genpkg` should create, given whether the directory already
/// exists: refused if it does, else the manifest and script texts.
pub fn generate_plan(name: &str, dir_exists: bool) -> (r: Result<(String, String), PkgUtilError>)
    ensures
        match r {
            Ok(texts) => !dir_exists && texts.0@ == scaffold_manifest_spec(name@)
                && texts.1@ == scaffold_script_spec(name@),
            Err(e) => dir_exists
                && (e matches PkgUtilError::AlreadyExists(n) && n@ == name@),
        },
{
    if dir_exists {
        Err(PkgUtilError::AlreadyExists(name.to_owned()))
    } else {
        Ok((scaffold_manifest(name), scaffold_script(name)))
    }
}

/// One entry of the source tree's `files/` subtree, as the caller's
/// walk found it: a root-relative path, its kind, its mode, a regular
/// file's contents and a symbolic link's target where the target was
/// valid text.
#[derive(Debug, Clone, PartialEq)]
pub struct FsEntry {
    pub path: String,
    pub kind: FsEntryKind,
    pub mode: u32,
    pub data: Vec<u8>,
    pub link_target: Option<String>,
}

#[derive(Debug, Clone, PartialEq)]
pub enum FsEntryKind {
    File,
    Dir,
    Symlink,
    Other,
}

/// Mathematical image of a source-tree entry.
pub struct FsEntryV {
    pub path: Seq<char>,
    pub kind: FsEntryKind,
    pub mode: int,
    pub data: Seq<u8>,
    pub link_target: Option<Seq<char>>,
}

impl View for FsEntry {
    type V = FsEntryV;

    open spec fn view(&self) -> FsEntryV {
        FsEntryV {
            path: self.path@,
            kind: self.kind,
            mode: self.mode as int,
            data: self.data@,
            link_target: match self.link_target {
                Some(ref t) => Some(t@),
                None => None,
            },
        }
    }
}

impl DeepView for FsEntry {
    type V = FsEntryV;

    open spec fn deep_view(&self) -> FsEntryV {
        self.view()
    }
}

/// The archive entries one source entry contributes: a file keeps its
/// mode and contents, a directory gets mode `0o755`, a symbolic link
/// mode `0o777` and its target; other entry kinds are skipped.  A
/// symbolic link whose target was not valid text contributes nothing
/// here because the build fails on it: `build_kpkg` never returns `Ok`
/// over such an entry.
pub open spec fn item_of(e: FsEntryV) -> Seq<TarItemM> {
    match e.kind {
        FsEntryKind::File => seq![TarItemM::File { path: e.path, mode: e.mode, data: e.data }],
        FsEntryKind::Dir => seq![TarItemM::Dir { path: e.path, mode: 0o755 }],
        FsEntryKind::Symlink => match e.link_target {
            Some(t) => seq![TarItemM::Symlink { path: e.path, mode: 0o777, target: t }],
            None => Seq::empty(),
        },
        FsEntryKind::Other => Seq::empty(),
    }
}

/// The payload archive's entries, in walk order.
pub open spec fn payload_items(entries: Seq<FsEntryV>) -> Seq<TarItemM>
    decreases entries.len(),
{
    if entries.len() == 0 {
        Seq::empty()
    } else {
        payload_items(entries.drop_last()) + item_of(entries.last())
    }
}

/// Whether one source entry can be archived: its path must fit a tar
/// header, and a symbolic link must carry a textual target that fits
/// the link field.
pub open spec fn entry_buildable(e: FsEntryV) -> bool {
    match e.kind {
        FsEntryKind::File => tar_path_fits(e.path),
        FsEntryKind::Dir => tar_path_fits(e.path),
        FsEntryKind::Symlink => e.link_target matches Some(t) && tar_path_fits(e.path)
            && tar_link_fits(t),
        FsEntryKind::Other => true,
    }
}

/// Law: building preserves every regular file of the source tree into
/// the payload archive, with its path, mode and contents unchanged — so
/// an install that materialises the payload reproduces each regular
/// file of the tree it was built from.
pub proof fn lemma_build_preserves_regular_files(entries: Seq<FsEntryV>, i: int)
    requires
        0 <= i < entries.len(),
        entries[i].kind == FsEntryKind::File,
    ensures
        payload_items(entries).contains(TarItemM::File {
            path: entries[i].path,
            mode: entries[i].mode,
            data: entries[i].data,
        }),
    decreases entries.len(),
{
    let item = TarItemM::File {
        path: entries[i].path,
        mode: entries[i].mode,
        data: entries[i].data,
    };
    if i == entries.len() - 1 {
        let k: int = payload_items(entries.drop_last()).len() as int;
        assert(payload_items(entries)[k] == item);
    } else {
        assert(entries.drop_last()[i] == entries[i]);
        lemma_build_preserves_regular_files(entries.drop_last(), i);
        let pre = payload_items(entries.drop_last());
        let j = choose|j: int| 0 <= j < pre.len() && pre[j] == item;
        assert(payload_items(entries)[j] == item);
    }
}

/// The bytes of a finished `.kpkg` artifact for a manifest text and a
/// payload: gzip of a tar holding `package.kdl` and `files.tar.zst`,
/// the latter zstd level 3 of the payload tar.
pub open spec fn kpkg_bytes_spec(kdl_text: Seq<char>, entries: Seq<FsEntryV>) -> Seq<u8> {
    gzip_encode_spec(tar_bytes_of(seq![
        TarItemM::File {
            path: "package.kdl"@,
            mode: 0o644,
            data: vstd::utf8::encode_utf8(kdl_text),
        },
        TarItemM::File {
            path: "files.tar.zst"@,
            mode: 0o644,
            data: zstd_encode_spec(tar_bytes_of(payload_items(entries)), 3),
        },
    ]))
}

/// The artifact's file name: `<name>-<version>-<arch>.kpkg`.
pub open spec fn kpkg_name_spec(name: Seq<char>, version: Seq<char>, arch: Seq<char>) -> Seq<char> {
    name + "-"@ + version + "-"@ + arch + ".kpkg"@
}

/// Build a `.kpkg` from a manifest text and the walked `files/`
/// entries.  On success the artifact's name is taken from the parsed
/// manifest, its bytes are exactly `kpkg_bytes_spec`, and every
/// symbolic-link entry carried a textual target; a bad manifest is
/// reported as such, and exactly then; an entry that does not fit a tar
/// header, or a symbolic link without a textual target, as an I/O
/// error.  Success is owed whenever the manifest parses and every entry
/// is buildable.
#[verifier::loop_isolation(false)]
pub fn build_kpkg(kdl_text: &str, entries: &Vec<FsEntry>) -> (r: Result<
    (String, Vec<u8>),
    PkgUtilError,
>)
    ensures
        match r {
            Ok(out) => manifest_of_text(kdl_text@) matches Ok(pv)
                && out.0@ == kpkg_name_spec(pv.name, pv.version, pv.arch)
                && out.1@ == kpkg_bytes_spec(kdl_text@, entries.deep_view())
                && (forall|i: int| 0 <= i < entries.deep_view().len()
                    && (#[trigger] entries.deep_view()[i]).kind == FsEntryKind::Symlink
                    ==> entries.deep_view()[i].link_target is Some),
            Err(e) => match e {
                PkgUtilError::Package(pe) => manifest_of_text(kdl_text@) == Err::<
                    crate::package::PackageV,
                    crate::package::PackageParseErrorV,
                >(pe@),
                PkgUtilError::Io(_) => manifest_of_text(kdl_text@) is Ok,
                _ => false,
            },
        },
        manifest_of_text(kdl_text@) is Ok && (forall|i: int|
            0 <= i < entries.deep_view().len()
                ==> entry_buildable(#[trigger] entries.deep_view()[i])) ==> r is Ok,
{
    let pkg = match Package::from_kdl(kdl_text) {
        Ok(p) => p,
        Err(e) => {
            return Err(PkgUtilError::Package(e));
        }
    };
    let ghost entriesv = entries.deep_view();
    let mut payload = tar_new();
    let n = entries.len();
    let mut i: usize = 0;
    proof {
        assert(payload_items(entriesv.subrange(0, 0)) =~= Seq::<TarItemM>::empty());
    }
    while i < n
        invariant
            i <= n,
            n == entries@.len(),
            tar_items(payload) == payload_items(entriesv.subrange(0, i as int)),
            forall|j: int| 0 <= j < i && (#[trigger] entriesv[j]).kind == FsEntryKind::Symlink
                ==> entriesv[j].link_target is Some,
        decreases n - i,
    {
        let e = &entries[i];
        let ghost pre = entriesv.subrange(0, i as int);
        let ghost cur = entriesv.subrange(0, i as int + 1);
        proof {
            assert(cur.drop_last() =~= pre);
            assert(cur.last() == entriesv[i as int]);
            assert(entriesv[i as int] == e@);
        }
        match &e.kind {
            FsEntryKind::File => {
                let step = tar_append_file(&mut payload, e.path.as_str(), e.mode, &e.data);
                if step.is_err() {
                    proof {
                        assert(!entry_buildable(entriesv[i as int]));
                    }
                    return Err(PkgUtilError::Io(String::from_str("failed to write tar entry")));
                }
                proof {
                    assert(tar_items(payload) =~= payload_items(cur));
                }
            }
            FsEntryKind::Dir => {
                let step = tar_append_dir(&mut payload, e.path.as_str(), 0o755);
                if step.is_err() {
                    proof {
                        assert(!entry_buildable(entriesv[i as int]));
                    }
                    return Err(PkgUtilError::Io(String::from_str("failed to write tar entry")));
                }
                proof {
                    assert(tar_items(payload) =~= payload_items(cur));
                }
            }
            FsEntryKind::Symlink => {
                match &e.link_target {
                    None => {
                        proof {
                            assert(!entry_buildable(entriesv[i as int]));
                        }
                        return Err(PkgUtilError::Io(
                            String::from_str("symbolic link target is not valid text")));
                    }
                    Some(target) => {
                        let step = tar_append_symlink(&mut payload, e.path.as_str(), 0o777,
                            target.as_str());
                        if step.is_err() {
                            proof {
                                assert(!entry_buildable(entriesv[i as int]));
                            }
                            return Err(PkgUtilError::Io(
                                String::from_str("failed to write tar entry")));
                        }
                        proof {
                            assert(tar_items(payload) =~= payload_items(cur));
                        }
                    }
                }
            }
            FsEntryKind::Other => {
                proof {
                    assert(tar_items(payload) =~= payload_items(cur));
                }
            }
        }
        i = i + 1;
    }
    proof {
        assert(entriesv.subrange(0, n as int) =~= entriesv);
    }
    let payload_tar = match tar_finish(payload) {
        Ok(b) => b,
        Err(_) => {
            return Err(PkgUtilError::Io(String::from_str("failed to finish payload archive")));
        }
    };
    let payload_zst = match zstd_encode(&payload_tar, 3) {
        Ok(b) => b,
        Err(_) => {
            return Err(PkgUtilError::Io(String::from_str("failed to compress payload")));
        }
    };
    let mut outer = tar_new();
    let kdl_bytes = kdl_text.as_bytes_vec();
    proof {
        broadcast use vstd::string::group_string_axioms;

        reveal_strlit("package.kdl");
        reveal_strlit("files.tar.zst");
        reveal_strlit(".");
        reveal_strlit("..");
        assert(plain_tar_name("package.kdl"@)) by {
            assert(("package.kdl"@).len() == 11);
            assert(("."@).len() == 1);
            assert((".."@).len() == 2);
            assert forall|q: int| 0 <= q < ("package.kdl"@).len() implies
                is_name_char(#[trigger] ("package.kdl"@)[q]) by {
                let s = "package.kdl"@;
                assert(is_name_char(s[0]));
                assert(is_name_char(s[1]));
                assert(is_name_char(s[2]));
                assert(is_name_char(s[3]));
                assert(is_name_char(s[4]));
                assert(is_name_char(s[5]));
                assert(is_name_char(s[6]));
                assert(is_name_char(s[7]));
                assert(is_name_char(s[8]));
                assert(is_name_char(s[9]));
                assert(is_name_char(s[10]));
            }
        }
        assert(plain_tar_name("files.tar.zst"@)) by {
            assert(("files.tar.zst"@).len() == 13);
            assert(("."@).len() == 1);
            assert((".."@).len() == 2);
            assert forall|q: int| 0 <= q < ("files.tar.zst"@).len() implies
                is_name_char(#[trigger] ("files.tar.zst"@)[q]) by {
                let s = "files.tar.zst"@;
                assert(is_name_char(s[0]));
                assert(is_name_char(s[1]));
                assert(is_name_char(s[2]));
                assert(is_name_char(s[3]));
                assert(is_name_char(s[4]));
                assert(is_name_char(s[5]));
                assert(is_name_char(s[6]));
                assert(is_name_char(s[7]));
                assert(is_name_char(s[8]));
                assert(is_name_char(s[9]));
                assert(is_name_char(s[10]));
                assert(is_name_char(s[11]));
                assert(is_name_char(s[12]));
            }
        }
    }
    let step = tar_append_file(&mut outer, "package.kdl", 0o644, &kdl_bytes);
    if step.is_err() {
        return Err(PkgUtilError::Io(String::from_str("failed to write manifest entry")));
    }
    let step2 = tar_append_file(&mut outer, "files.tar.zst", 0o644, &payload_zst);
    if step2.is_err() {
        return Err(PkgUtilError::Io(String::from_str("failed to write payload entry")));
    }
    proof {
        assert(tar_items(outer) =~= seq![
            TarItemM::File {
                path: "package.kdl"@,
                mode: 0o644,
                data: vstd::utf8::encode_utf8(kdl_text@),
            },
            TarItemM::File {
                path: "files.tar.zst"@,
                mode: 0o644,
                data: zstd_encode_spec(tar_bytes_of(payload_items(entriesv)), 3),
            },
        ]);
    }
    let outer_tar = match tar_finish(outer) {
        Ok(b) => b,
        Err(_) => {
            return Err(PkgUtilError::Io(String::from_str("failed to finish artifact archive")));
        }
    };
    let bytes = match gzip_encode(&outer_tar) {
        Ok(b) => b,
        Err(_) => {
            return Err(PkgUtilError::Io(String::from_str("failed to compress artifact")));
        }
    };
    let mut name = pkg.name.clone();
    name.append("-");
    name.append(pkg.version.as_str());
    name.append("-");
    name.append(pkg.arch.as_str());
    name.append(".kpkg");
    Ok((name, bytes))
}

} // verus!
