//! Repository synchronisation: the repository database model, its
//! structural validation, the per-repo fetch decision, URL construction
//! and the decompression of the wire artifact.  The network transfer
//! itself is the caller's: it hands status codes and raw bytes in and
//! takes the decompressed, validated text back.

use vstd::prelude::*;
use crate::strutil::all_name_chars;
use crate::strutil::is_lower_hex;
use crate::strutil::is_valid_name;
use crate::strutil::is_valid_sha256_hex;
use crate::depres::PackageId;
use crate::depres::PackageIdV;
use crate::depres::PackageMetadata;
use crate::depres::MetaV;
use crate::depres::PackageUniverse;
use crate::depres::Dependency;
use crate::depres::dep_parse_spec;

verus! {

/// Synchronisation failures.  Transport and I/O variants carry the
/// message of the error the caller met.
#[derive(Debug, Clone, PartialEq)]
pub enum SyncError {
    Http(String),
    Io(String),
    Toml(String),
    MissingFlavour,
    UnsupportedArch(String),
    Other(String),
}

/// Mathematical image of a synchronisation failure.
pub enum SyncErrorV {
    Http(Seq<char>),
    Io(Seq<char>),
    Toml(Seq<char>),
    MissingFlavour,
    UnsupportedArch(Seq<char>),
    Other(Seq<char>),
}

impl View for SyncError {
    type V = SyncErrorV;

    open spec fn view(&self) -> SyncErrorV {
        match self {
            SyncError::Http(m) => SyncErrorV::Http(m@),
            SyncError::Io(m) => SyncErrorV::Io(m@),
            SyncError::Toml(m) => SyncErrorV::Toml(m@),
            SyncError::MissingFlavour => SyncErrorV::MissingFlavour,
            SyncError::UnsupportedArch(m) => SyncErrorV::UnsupportedArch(m@),
            SyncError::Other(m) => SyncErrorV::Other(m@),
        }
    }
}

/// One row of a repository database.
#[derive(Debug, Clone, PartialEq)]
pub struct RepoPackage {
    pub version: String,
    pub arch: String,
    pub flavor: String,
    pub filename: String,
    pub sha256: String,
    pub depends: Vec<String>,
}

/// Mathematical image of a repository row.
pub struct RepoPackageV {
    pub version: Seq<char>,
    pub arch: Seq<char>,
    pub flavor: Seq<char>,
    pub filename: Seq<char>,
    pub sha256: Seq<char>,
    pub depends: Seq<Seq<char>>,
}

impl View for RepoPackage {
    type V = RepoPackageV;

    open spec fn view(&self) -> RepoPackageV {
        RepoPackageV {
            version: self.version@,
            arch: self.arch@,
            flavor: self.flavor@,
            filename: self.filename@,
            sha256: self.sha256@,
            depends: self.depends.deep_view(),
        }
    }
}

/// A repository database: rows keyed by package name, in file order.
#[derive(Debug, Clone, PartialEq)]
pub struct RepoDatabase {
    pub packages: Vec<(String, RepoPackage)>,
}

impl View for RepoDatabase {
    type V = Seq<(Seq<char>, RepoPackageV)>;

    open spec fn view(&self) -> Seq<(Seq<char>, RepoPackageV)> {
        Seq::new(self.packages@.len(), |i: int| (self.packages@[i].0@, self.packages@[i].1@))
    }
}

/// A structurally valid row: a well-formed package name and a
/// well-formed lowercase-hex digest.
pub open spec fn row_valid(name: Seq<char>, p: RepoPackageV) -> bool {
    &&& name.len() > 0
    &&& all_name_chars(name)
    &&& p.sha256.len() == 64
    &&& forall|i: int| 0 <= i < p.sha256.len() ==> is_lower_hex(#[trigger] p.sha256[i])
}

/// A structurally valid database: every row is valid.
pub open spec fn repo_db_valid(rows: Seq<(Seq<char>, RepoPackageV)>) -> bool {
    forall|i: int| 0 <= i < rows.len()
        ==> row_valid((#[trigger] rows[i]).0, rows[i].1)
}

impl RepoDatabase {
    /// Whether every row meets the structural invariants the data model
    /// asks of repository entries.
    pub fn check(&self) -> (r: bool)
        ensures
            r == repo_db_valid(self@),
    {
        let n = self.packages.len();
        let mut i: usize = 0;
        while i < n
            invariant
                i <= n,
                n == self.packages@.len(),
                forall|j: int| 0 <= j < i ==> row_valid((#[trigger] self@[j]).0, self@[j].1),
            decreases n - i,
        {
            let name_ok = is_valid_name(self.packages[i].0.as_str());
            let sha_ok = is_valid_sha256_hex(self.packages[i].1.sha256.as_str());
            if !(name_ok && sha_ok) {
                proof {
                    assert(!row_valid(self@[i as int].0, self@[i as int].1));
                }
                return false;
            }
            i = i + 1;
        }
        true
    }

    /// Add every row to a universe under the given repository name: the
    /// row's identity becomes the key, its raw dependency strings are
    /// parsed into edges, and the download URL is built from the default
    /// origin, the row's flavour, the repository, the row's arch and the
    /// artifact name.
    #[verifier::loop_isolation(false)]
    pub fn add_to_universe(&self, universe: &mut PackageUniverse, repo: &str)
        ensures
            final(universe)@ == old(universe)@ + self@.map_values(
                |row: (Seq<char>, RepoPackageV)| meta_of_row(row.0, row.1, repo@)),
    {
        let ghost rows = self@;
        let ghost mapped = rows.map_values(
            |row: (Seq<char>, RepoPackageV)| meta_of_row(row.0, row.1, repo@));
        let n = self.packages.len();
        let mut i: usize = 0;
        proof {
            assert(old(universe)@ + mapped.subrange(0, 0) =~= old(universe)@);
        }
        while i < n
            invariant
                i <= n,
                n == self.packages@.len(),
                universe@ == old(universe)@ + mapped.subrange(0, i as int),
            decreases n - i,
        {
            let name = self.packages[i].0.clone();
            let row = &self.packages[i].1;
            let url = package_url(row.flavor.as_str(), repo, row.arch.as_str(),
                row.filename.as_str());
            let mut depends: Vec<Dependency> = Vec::new();
            let dn = row.depends.len();
            let mut j: usize = 0;
            proof {
                assert(depends.deep_view() =~= row@.depends.map_values(
                    |d: Seq<char>| dep_parse_spec(d)).subrange(0, 0));
            }
            while j < dn
                invariant
                    j <= dn,
                    dn == row.depends@.len(),
                    depends.deep_view() == row@.depends.map_values(
                        |d: Seq<char>| dep_parse_spec(d)).subrange(0, j as int),
                decreases dn - j,
            {
                let d = Dependency::parse(row.depends[j].as_str());
                let ghost dv0 = depends.deep_view();
                let ghost dv = d@;
                depends.push(d);
                proof {
                    assert(depends.deep_view() =~= dv0.push(dv));
                    assert(depends.deep_view() =~= row@.depends.map_values(
                        |d: Seq<char>| dep_parse_spec(d)).subrange(0, j as int + 1));
                }
                j = j + 1;
            }
            proof {
                assert(row@.depends.map_values(|d: Seq<char>| dep_parse_spec(d)).subrange(0,
                    dn as int) =~= row@.depends.map_values(|d: Seq<char>| dep_parse_spec(d)));
            }
            let meta = PackageMetadata {
                id: PackageId {
                    name,
                    version: row.version.clone(),
                    arch: row.arch.clone(),
                    flavour: row.flavor.clone(),
                },
                url,
                sha256: row.sha256.clone(),
                filename: row.filename.clone(),
                depends,
            };
            proof {
                assert(meta@ == mapped[i as int]);
            }
            universe.add_entry(meta);
            proof {
                assert(universe@ =~= old(universe)@ + mapped.subrange(0, i as int + 1));
            }
            i = i + 1;
        }
        proof {
            assert(mapped.subrange(0, n as int) =~= mapped);
        }
    }
}

/// The entry a repository row denotes in the universe.
pub open spec fn meta_of_row(name: Seq<char>, p: RepoPackageV, repo: Seq<char>) -> MetaV {
    MetaV {
        id: PackageIdV { name, version: p.version, arch: p.arch, flavour: p.flavor },
        url: repo_base_spec() + "/"@ + p.flavor + "/"@ + repo + "/"@ + p.arch + "/"@ + p.filename,
        sha256: p.sha256,
        filename: p.filename,
        depends: p.depends.map_values(|d: Seq<char>| dep_parse_spec(d)),
    }
}

/// The default repository origin.
pub open spec fn repo_base_spec() -> Seq<char> {
    "https://seiryolinux.github.io/repo"@
}

/// The default repository origin.
pub fn repo_base() -> (r: &'static str)
    ensures
        r@ == repo_base_spec(),
{
    "https://seiryolinux.github.io/repo"
}

/// The URL a package artifact is fetched from:
/// `<origin>/<flavour>/<repo>/<arch>/<filename>`.
pub fn package_url(flavour: &str, repo: &str, arch: &str, filename: &str) -> (r: String)
    ensures
        r@ == repo_base_spec() + "/"@ + flavour@ + "/"@ + repo@ + "/"@ + arch@ + "/"@
            + filename@,
{
    let mut out = String::from_str(repo_base());
    out.append("/");
    out.append(flavour);
    out.append("/");
    out.append(repo);
    out.append("/");
    out.append(arch);
    out.append("/");
    out.append(filename);
    out
}

/// The URL a repository database is fetched from:
/// `<base>/<flavour>/<repo>/<arch>/<repo>.db.zst`.
pub fn repo_db_url(base: &str, flavour: &str, repo: &str, arch: &str) -> (r: String)
    ensures
        r@ == base@ + "/"@ + flavour@ + "/"@ + repo@ + "/"@ + arch@ + "/"@ + repo@
            + ".db.zst"@,
{
    let mut out = String::from_str(base);
    out.append("/");
    out.append(flavour);
    out.append("/");
    out.append(repo);
    out.append("/");
    out.append(arch);
    out.append("/");
    out.append(repo);
    out.append(".db.zst");
    out
}

/// Accept only the architectures the distribution builds for.
pub fn check_arch(raw: &str) -> (r: Result<String, SyncError>)
    ensures
        match r {
            Ok(a) => (raw@ == "x86_64"@ || raw@ == "aarch64"@) && a@ == raw@,
            Err(e) => !(raw@ == "x86_64"@ || raw@ == "aarch64"@)
                && (e matches SyncError::UnsupportedArch(s) && s@ == raw@),
        },
{
    if crate::strutil::str_eq(raw, "x86_64") || crate::strutil::str_eq(raw, "aarch64") {
        Ok(raw.to_owned())
    } else {
        Err(SyncError::UnsupportedArch(raw.to_owned()))
    }
}

/// What to do with one repository after its database was requested.
#[derive(Debug, Clone, PartialEq)]
pub enum SyncAction {
    Skip,
    Store,
}

/// The per-repo decision: a non-2xx status — a missing repository among
/// them — skips that repository and the synchronisation goes on; a
/// success stores and validates the body.
pub fn repo_fetch_decision(status: u16) -> (r: SyncAction)
    ensures
        r == SyncAction::Store <==> 200 <= status < 300,
        r == SyncAction::Skip <==> !(200 <= status < 300),
{
    if 200 <= status && status < 300 {
        SyncAction::Store
    } else {
        SyncAction::Skip
    }
}

/// What zstd decompression yields for a byte sequence, a function of
/// the bytes alone; nothing if they are not a valid zstd frame.
pub uninterp spec fn zstd_decode_spec(b: Seq<u8>) -> Option<Seq<u8>>;

/// Relies on `zstd::stream::decode_all`: decompresses a zstd frame, a
/// function of the input bytes alone.
#[verifier::external_body]
fn zstd_decode(bytes: &Vec<u8>) -> (r: Option<Vec<u8>>)
    ensures
        match r {
            Some(out) => zstd_decode_spec(bytes@) == Some(out@),
            None => zstd_decode_spec(bytes@) is None,
        },
{
    zstd::stream::decode_all(bytes.as_slice()).ok()
}

/// Relies on `String::from_utf8`: decodes UTF-8 bytes into the text
/// they encode.
#[verifier::external_body]
fn bytes_to_string(bytes: Vec<u8>) -> (r: Option<String>)
    ensures
        match r {
            Some(s) => vstd::utf8::valid_utf8(bytes@) && vstd::utf8::encode_utf8(s@) == bytes@,
            None => !vstd::utf8::valid_utf8(bytes@),
        },
{
    String::from_utf8(bytes).ok()
}

/// Decompress a fetched repository database into its text.  Fails on a
/// broken zstd frame or on bytes that are not UTF-8; otherwise the text
/// is exactly what the frame encodes.
pub fn decode_repo_db(bytes: &Vec<u8>) -> (r: Result<String, SyncError>)
    ensures
        match r {
            Ok(s) => zstd_decode_spec(bytes@) matches Some(raw)
                && vstd::utf8::valid_utf8(raw) && vstd::utf8::encode_utf8(s@) == raw,
            Err(_) => zstd_decode_spec(bytes@) is None || (zstd_decode_spec(bytes@) matches
                Some(raw) && !vstd::utf8::valid_utf8(raw)),
        },
{
    let raw = match zstd_decode(bytes) {
        None => {
            return Err(SyncError::Other(String::from_str("invalid zstd data")));
        }
        Some(v) => v,
    };
    match bytes_to_string(raw) {
        None => Err(SyncError::Other(String::from_str("repository database is not UTF-8"))),
        Some(s) => Ok(s),
    }
}

} // verus!
