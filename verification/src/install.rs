//! Install engine: from an unpacked artifact — the manifest text, the
//! presence of the payload archive, and the walked staging tree — to
//! the installed-package record the database keeps.  Unpacking the
//! archive and moving the staged tree onto the root are the caller's;
//! the record's `files` list is exactly the staging tree's regular
//! files, which is what removal later unlinks.

use vstd::prelude::*;
use crate::package::Package;
use crate::package::PackageParseError;
use crate::package::PackageV;
use crate::package::PackageParseErrorV;
use crate::package::manifest_of_text;
use crate::pkgdb::InstalledPackage;
use crate::pkgdb::PkgDbError;
use crate::resolve::ResolveError;

verus! {

/// Install failures.
#[derive(Debug, Clone, PartialEq)]
pub enum InstallError {
    Io(String),
    PackageParse(PackageParseError),
    MissingFilesTar,
    TempDir,
    InvalidRoot(String),
    PkgDb(PkgDbError),
    Resolve(ResolveError),
}

/// One entry of the walked staging tree: its root-relative path and
/// whether it is a regular file.
#[derive(Debug, Clone, PartialEq)]
pub struct WalkEntry {
    pub path: String,
    pub is_file: bool,
}

impl View for WalkEntry {
    type V = (Seq<char>, bool);

    open spec fn view(&self) -> (Seq<char>, bool) {
        (self.path@, self.is_file)
    }
}

impl DeepView for WalkEntry {
    type V = (Seq<char>, bool);

    open spec fn deep_view(&self) -> (Seq<char>, bool) {
        self.view()
    }
}

/// The paths of the walk's regular files, in walk order.
pub open spec fn regular_files(walk: Seq<(Seq<char>, bool)>) -> Seq<Seq<char>>
    decreases walk.len(),
{
    if walk.len() == 0 {
        Seq::empty()
    } else {
        let rest = regular_files(walk.drop_last());
        if walk.last().1 {
            rest.push(walk.last().0)
        } else {
            rest
        }
    }
}

/// The record an install writes to the database, for a manifest and a
/// staging walk.
pub open spec fn install_record_spec(pv: PackageV, walk: Seq<(Seq<char>, bool)>)
    -> crate::pkgdb::InstalledPackageV {
    crate::pkgdb::InstalledPackageV {
        name: pv.name,
        version: pv.version,
        arch: pv.arch,
        flavour: pv.flavor,
        depends: pv.depends,
        files: regular_files(walk),
    }
}

/// Build the installed-package record from the unpacked artifact: the
/// manifest must parse, the payload archive must have been present, and
/// the record owns exactly the staging tree's regular files.
#[verifier::loop_isolation(false)]
pub fn install_record(kdl_text: &str, has_files_tar: bool, walk: &Vec<WalkEntry>) -> (r: Result<
    InstalledPackage,
    InstallError,
>)
    ensures
        match r {
            Ok(p) => manifest_of_text(kdl_text@) matches Ok(pv) && has_files_tar
                && p@ == install_record_spec(pv, walk.deep_view()),
            Err(e) => match e {
                InstallError::PackageParse(pe) => manifest_of_text(kdl_text@)
                    == Err::<PackageV, PackageParseErrorV>(pe@),
                InstallError::MissingFilesTar => manifest_of_text(kdl_text@) is Ok
                    && !has_files_tar,
                _ => false,
            },
        },
{
    let pkg = match Package::from_kdl(kdl_text) {
        Ok(p) => p,
        Err(e) => {
            return Err(InstallError::PackageParse(e));
        }
    };
    if !has_files_tar {
        return Err(InstallError::MissingFilesTar);
    }
    let ghost walkv = walk.deep_view();
    let mut files: Vec<String> = Vec::new();
    let n = walk.len();
    let mut i: usize = 0;
    proof {
        assert(regular_files(walkv.subrange(0, 0)) =~= Seq::<Seq<char>>::empty());
        assert(files.deep_view() =~= Seq::<Seq<char>>::empty());
    }
    while i < n
        invariant
            i <= n,
            n == walk@.len(),
            files.deep_view() == regular_files(walkv.subrange(0, i as int)),
        decreases n - i,
    {
        let ghost pre = walkv.subrange(0, i as int);
        let ghost cur = walkv.subrange(0, i as int + 1);
        proof {
            assert(cur.drop_last() =~= pre);
            assert(cur.last() == walkv[i as int]);
        }
        if walk[i].is_file {
            let ghost dv0 = files.deep_view();
            files.push(walk[i].path.clone());
            proof {
                assert(files.deep_view() =~= dv0.push(walkv[i as int].0));
            }
        }
        i = i + 1;
    }
    proof {
        assert(walkv.subrange(0, n as int) =~= walkv);
    }
    Ok(InstalledPackage {
        name: pkg.name,
        version: pkg.version,
        arch: pkg.arch,
        flavour: pkg.flavor,
        depends: pkg.depends,
        files,
    })
}

} // verus!
