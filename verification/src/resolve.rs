//! Fetch-side resolution types: the per-package download item handed to
//! the fetcher, and the digest gate applied to every artifact — fetched
//! or found in the cache — before it is installed.

use vstd::prelude::*;
use crate::depres::PackageMetadata;
use crate::digest::sha256_hex_of;
use crate::strutil::str_eq;

verus! {

/// Fetch and verification failures.  Transport, parse and I/O variants
/// carry the message of the error the caller met.
#[derive(Debug, Clone, PartialEq)]
pub enum ResolveError {
    NotFound(String),
    Io(String),
    Toml(String),
    Http(String),
    Sha256Mismatch { filename: String, expected: String, actual: String },
}

/// Mathematical image of a fetch failure.
pub enum ResolveErrorV {
    NotFound(Seq<char>),
    Io(Seq<char>),
    Toml(Seq<char>),
    Http(Seq<char>),
    Sha256Mismatch { filename: Seq<char>, expected: Seq<char>, actual: Seq<char> },
}

impl View for ResolveError {
    type V = ResolveErrorV;

    open spec fn view(&self) -> ResolveErrorV {
        match self {
            ResolveError::NotFound(n) => ResolveErrorV::NotFound(n@),
            ResolveError::Io(m) => ResolveErrorV::Io(m@),
            ResolveError::Toml(m) => ResolveErrorV::Toml(m@),
            ResolveError::Http(m) => ResolveErrorV::Http(m@),
            ResolveError::Sha256Mismatch { filename, expected, actual } =>
                ResolveErrorV::Sha256Mismatch {
                filename: filename@,
                expected: expected@,
                actual: actual@,
            },
        }
    }
}

/// One package as the fetcher needs it: identity, artifact name, URL,
/// expected digest, and the names it depends on.
#[derive(Debug, Clone, PartialEq)]
pub struct ResolvedPackage {
    pub name: String,
    pub version: String,
    pub arch: String,
    pub filename: String,
    pub url: String,
    pub sha256: String,
    pub depends: Vec<String>,
}

impl ResolvedPackage {
    /// The fetch item for a selected universe entry; `depends` lists
    /// the entry's dependency target names.
    pub fn from_meta(m: &PackageMetadata) -> (r: ResolvedPackage)
        ensures
            r.name@ == m@.id.name,
            r.version@ == m@.id.version,
            r.arch@ == m@.id.arch,
            r.filename@ == m@.filename,
            r.url@ == m@.url,
            r.sha256@ == m@.sha256,
            r.depends.deep_view() == m@.depends.map_values(
                |d: crate::depres::DependencyV| d.name),
    {
        let ghost names = m@.depends.map_values(|d: crate::depres::DependencyV| d.name);
        let mut depends: Vec<String> = Vec::new();
        let n = m.depends.len();
        let mut i: usize = 0;
        proof {
            assert(depends.deep_view() =~= names.subrange(0, 0));
        }
        while i < n
            invariant
                i <= n,
                n == m.depends@.len(),
                names == m@.depends.map_values(|d: crate::depres::DependencyV| d.name),
                depends.deep_view() == names.subrange(0, i as int),
            decreases n - i,
        {
            let ghost dv0 = depends.deep_view();
            depends.push(m.depends[i].name.clone());
            proof {
                assert(depends.deep_view() =~= dv0.push(names[i as int]));
                assert(dv0.push(names[i as int]) =~= names.subrange(0, i as int + 1));
            }
            i = i + 1;
        }
        proof {
            assert(names.subrange(0, n as int) =~= names);
        }
        ResolvedPackage {
            name: m.id.name.clone(),
            version: m.id.version.clone(),
            arch: m.id.arch.clone(),
            filename: m.filename.clone(),
            url: m.url.clone(),
            sha256: m.sha256.clone(),
            depends,
        }
    }
}

/// The digest gate: an artifact whose bytes hash to anything other than
/// the advertised digest is rejected with `Sha256Mismatch`, naming the
/// artifact and both digests; only a matching artifact passes, so no
/// install proceeds on mismatched bytes.
pub fn verify_artifact(filename: &str, expected: &str, actual_hex: &String) -> (r: Result<
    (),
    ResolveError,
>)
    ensures
        r is Ok <==> actual_hex@ == expected@,
        r matches Err(e) ==> e@ matches ResolveErrorV::Sha256Mismatch {
            filename: f,
            expected: x,
            actual: a,
        } && f == filename@ && x == expected@ && a == actual_hex@,
{
    if str_eq(actual_hex.as_str(), expected) {
        Ok(())
    } else {
        Err(ResolveError::Sha256Mismatch {
            filename: filename.to_owned(),
            expected: expected.to_owned(),
            actual: actual_hex.clone(),
        })
    }
}

/// The digest gate over raw bytes: accept exactly when the bytes hash
/// to the advertised digest.
pub fn verify_bytes(filename: &str, expected: &str, data: &Vec<u8>) -> (r: Result<
    (),
    ResolveError,
>)
    ensures
        r is Ok <==> sha256_hex_of(data@) == expected@,
        r matches Err(e) ==> e@ matches ResolveErrorV::Sha256Mismatch {
            filename: f,
            expected: x,
            actual: a,
        } && f == filename@ && x == expected@ && a == sha256_hex_of(data@),
{
    let actual = crate::digest::sha256_hex(data);
    verify_artifact(filename, expected, &actual)
}

} // verus!
