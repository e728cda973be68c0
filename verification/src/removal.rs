//! Remove engine: drop a package from the installed database and plan
//! which files to unlink.  Only the package's recorded regular files
//! are unlinked, in reverse record order; directories are deliberately
//! left behind, since other packages may share them.  The unlinking
//! itself is the caller's.

use vstd::prelude::*;
use crate::pkgdb::PackageDatabase;
use crate::pkgdb::PkgDbError;

verus! {

/// Removal failures.  The I/O variant carries the message of an error
/// the caller met while unlinking.
#[derive(Debug, Clone, PartialEq)]
pub enum RemovalError {
    NotInstalled(String),
    Io(String),
    PkgDb(PkgDbError),
}

/// Drop a package from the database and return the paths to unlink:
/// exactly the removed record's files, in reverse order.  Fails with
/// `NotInstalled`, leaving the database unchanged, exactly when the
/// name is not installed.
pub fn remove_plan(db: &mut PackageDatabase, package_name: &str) -> (r: Result<
    Vec<String>,
    RemovalError,
>)
    requires
        old(db).wf(),
    ensures
        final(db).wf(),
        match r {
            Ok(files) => old(db)@.contains_key(package_name@)
                && final(db)@ == old(db)@.remove(package_name@)
                && files.deep_view() == old(db)@[package_name@].files.reverse(),
            Err(e) => !old(db)@.contains_key(package_name@)
                && final(db)@ == old(db)@
                && (e matches RemovalError::NotInstalled(n) && n@ == package_name@),
        },
{
    let removed = match db.remove(package_name) {
        Ok(p) => p,
        Err(_) => {
            return Err(RemovalError::NotInstalled(package_name.to_owned()));
        }
    };
    let ghost filesv = removed.files.deep_view();
    let mut files: Vec<String> = Vec::new();
    let n = removed.files.len();
    let mut i: usize = 0;
    proof {
        assert(files.deep_view() =~= filesv.reverse().subrange(0, 0));
    }
    while i < n
        invariant
            i <= n,
            n == removed.files@.len(),
            filesv == removed.files.deep_view(),
            files.deep_view() == filesv.reverse().subrange(0, i as int),
        decreases n - i,
    {
        let ghost dv0 = files.deep_view();
        files.push(removed.files[n - 1 - i].clone());
        proof {
            assert(filesv.reverse()[i as int] == filesv[n - 1 - i]);
            assert(files.deep_view() =~= dv0.push(filesv[n as int - 1 - i]));
            assert(files.deep_view() =~= filesv.reverse().subrange(0, i as int + 1));
        }
        i = i + 1;
    }
    proof {
        assert(filesv.reverse().subrange(0, n as int) =~= filesv.reverse());
    }
    Ok(files)
}

} // verus!
