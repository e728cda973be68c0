//! koushou — a package manager core: manifest parsing, dependency
//! resolution, installed-state bookkeeping, archive building and
//! repository synchronisation, with machine-checked contracts.

pub mod archive;
pub mod depres;
pub mod digest;
pub mod install;
pub mod kdldoc;
pub mod list;
pub mod mirror;
pub mod package;
pub mod pkgdb;
pub mod pkgutil;
pub mod removal;
pub mod resolve;
pub mod strutil;
pub mod sync;

use vstd::prelude::*;

verus! {

/// The top-level error a command surfaces: one wrapper per engine.
#[derive(Debug, Clone, PartialEq)]
pub enum KspkgError {
    Install(install::InstallError),
    Removal(removal::RemovalError),
    List(list::ListError),
    Sync(sync::SyncError),
    Resolve(resolve::ResolveError),
    PkgUtil(pkgutil::PkgUtilError),
    Depres(depres::DepresError),
}

} // verus!
