//! Listing installed packages: the line printed per package is
//! `name-version (arch)`.

use vstd::prelude::*;
use crate::pkgdb::InstalledPackage;

verus! {

/// A listing failure, carrying its message.
#[derive(Debug, Clone, PartialEq)]
pub struct ListError {
    pub message: String,
}

impl ListError {
    /// Wrap a message.
    pub fn new(message: String) -> (r: Self)
        ensures
            r.message@ == message@,
    {
        ListError { message }
    }

    /// The failure's message.
    pub fn message(&self) -> (r: &String)
        ensures
            r@ == self.message@,
    {
        &self.message
    }
}

/// The listing line for one installed package.
pub fn format_package_line(p: &InstalledPackage) -> (r: String)
    ensures
        r@ == p@.name + "-"@ + p@.version + " ("@ + p@.arch + ")"@,
{
    let mut out = p.name.clone();
    out.append("-");
    out.append(p.version.as_str());
    out.append(" (");
    out.append(p.arch.as_str());
    out.append(")");
    out
}

} // verus!
