//! Installed-state database: the record of which packages are installed
//! and which files each one owns.  The database is modelled as a map from
//! package name to record; every operation's contract is stated over that
//! map.  Reading and writing the on-disk JSON form is left to the caller,
//! which hands the entries in and out as plain values.

use vstd::prelude::*;

verus! {

/// One installed package: identity, raw dependency strings, and the
/// root-relative paths of the regular files it owns.
#[derive(Debug, Clone, PartialEq)]
pub struct InstalledPackage {
    pub name: String,
    pub version: String,
    pub arch: String,
    pub flavour: String,
    pub depends: Vec<String>,
    pub files: Vec<String>,
}

/// Mathematical image of an installed-package record.
pub struct InstalledPackageV {
    pub name: Seq<char>,
    pub version: Seq<char>,
    pub arch: Seq<char>,
    pub flavour: Seq<char>,
    pub depends: Seq<Seq<char>>,
    pub files: Seq<Seq<char>>,
}

impl View for InstalledPackage {
    type V = InstalledPackageV;

    open spec fn view(&self) -> InstalledPackageV {
        InstalledPackageV {
            name: self.name@,
            version: self.version@,
            arch: self.arch@,
            flavour: self.flavour@,
            depends: self.depends.deep_view(),
            files: self.files.deep_view(),
        }
    }
}

/// Failures of database operations.  The I/O and JSON variants carry the
/// message of the error met by the caller doing the reading or writing.
#[derive(Debug, Clone, PartialEq)]
pub enum PkgDbError {
    Io(String),
    Json(String),
    PackageNotFound(String),
}

/// The set of installed packages, keyed by name.
#[derive(Debug, Clone, PartialEq)]
pub struct PackageDatabase {
    packages: Vec<InstalledPackage>,
}

/// No two records share a name.
pub open spec fn unique_names(s: Seq<InstalledPackage>) -> bool {
    forall|i: int, j: int| 0 <= i < j < s.len() ==> (#[trigger] s[i])@.name != (#[trigger] s[j])@.name
}

/// The map folded from a record sequence, later records winning.
pub open spec fn record_map(s: Seq<InstalledPackage>) -> Map<Seq<char>, InstalledPackageV>
    decreases s.len(),
{
    if s.len() == 0 {
        Map::empty()
    } else {
        record_map(s.drop_last()).insert(s.last()@.name, s.last()@)
    }
}

/// A key is in the folded map exactly when some record carries it, and it
/// maps to that record's image when names are unique.
proof fn lemma_record_map_index(s: Seq<InstalledPackage>, k: Seq<char>)
    ensures
        record_map(s).contains_key(k) <==> exists|i: int|
            0 <= i < s.len() && (#[trigger] s[i])@.name == k,
        unique_names(s) ==> forall|i: int|
            0 <= i < s.len() && (#[trigger] s[i])@.name == k ==> record_map(s)[k] == s[i]@,
    decreases s.len(),
{
    if s.len() != 0 {
        lemma_record_map_index(s.drop_last(), k);
        let last = s.len() - 1;
        if s[last]@.name == k {
            assert(record_map(s).contains_key(k));
        }
        assert forall|i: int| 0 <= i < s.len() && (#[trigger] s[i])@.name == k implies
            record_map(s).contains_key(k) by {
            if i < last {
                assert(s.drop_last()[i] == s[i]);
            }
        }
        if record_map(s).contains_key(k) && s[last]@.name != k {
            let i = choose|i: int| 0 <= i < s.drop_last().len()
                && (#[trigger] s.drop_last()[i])@.name == k;
            assert(s[i] == s.drop_last()[i]);
        }
        if unique_names(s) {
            assert(unique_names(s.drop_last())) by {
                assert forall|i: int, j: int| 0 <= i < j < s.drop_last().len() implies
                    (#[trigger] s.drop_last()[i])@.name != (#[trigger] s.drop_last()[j])@.name by {
                    assert(s.drop_last()[i] == s[i]);
                    assert(s.drop_last()[j] == s[j]);
                }
            }
            assert forall|i: int| 0 <= i < s.len() && (#[trigger] s[i])@.name == k implies
                record_map(s)[k] == s[i]@ by {
                if i < last {
                    assert(s.drop_last()[i] == s[i]);
                    assert(s[i]@.name != s[last]@.name);
                }
            }
        }
    }
}

/// Removing the record at one index removes exactly its key from the
/// folded map, when names are unique.
proof fn lemma_record_map_remove(s: Seq<InstalledPackage>, i: int)
    requires
        unique_names(s),
        0 <= i < s.len(),
    ensures
        record_map(s.remove(i)) == record_map(s).remove(s[i]@.name),
    decreases s.len(),
{
    let last = s.len() - 1;
    let k = s[i]@.name;
    if i == last {
        assert(s.remove(i) =~= s.drop_last());
        lemma_record_map_index(s.drop_last(), k);
        assert(!record_map(s.drop_last()).contains_key(k)) by {
            if record_map(s.drop_last()).contains_key(k) {
                let j = choose|j: int| 0 <= j < s.drop_last().len()
                    && (#[trigger] s.drop_last()[j])@.name == k;
                assert(s.drop_last()[j] == s[j]);
            }
        }
        assert(record_map(s).remove(k) =~= record_map(s.drop_last()));
    } else {
        assert(unique_names(s.drop_last())) by {
            assert forall|a: int, b: int| 0 <= a < b < s.drop_last().len() implies
                (#[trigger] s.drop_last()[a])@.name != (#[trigger] s.drop_last()[b])@.name by {
                assert(s.drop_last()[a] == s[a]);
                assert(s.drop_last()[b] == s[b]);
            }
        }
        assert(s.drop_last()[i] == s[i]);
        lemma_record_map_remove(s.drop_last(), i);
        assert(s.remove(i).drop_last() =~= s.drop_last().remove(i));
        assert(s.remove(i).last() == s.last());
        assert(s.remove(i).len() == s.len() - 1);
        assert(record_map(s.remove(i)) ==
            record_map(s.drop_last().remove(i)).insert(s.last()@.name, s.last()@));
        assert(k != s.last()@.name);
        assert(record_map(s.drop_last()).remove(k).insert(s.last()@.name, s.last()@) =~=
            record_map(s.drop_last()).insert(s.last()@.name, s.last()@).remove(k));
    }
}

impl PackageDatabase {
    /// All records carry distinct names.
    pub closed spec fn wf(&self) -> bool {
        unique_names(self.packages@)
    }

    /// Create an empty database.
    pub fn new() -> (db: Self)
        ensures
            db.wf(),
            db@ == Map::<Seq<char>, InstalledPackageV>::empty(),
    {
        PackageDatabase { packages: Vec::new() }
    }

    /// Index of the record named `name`, if any.
    fn find(&self, name: &str) -> (r: Option<usize>)
        ensures
            match r {
                Some(i) => i < self.packages@.len() && self.packages@[i as int]@.name == name@,
                None => forall|i: int| 0 <= i < self.packages@.len()
                    ==> (#[trigger] self.packages@[i])@.name != name@,
            },
    {
        let n = self.packages.len();
        let mut i: usize = 0;
        while i < n
            invariant
                i <= n,
                n == self.packages@.len(),
                forall|j: int| 0 <= j < i ==> (#[trigger] self.packages@[j])@.name != name@,
            decreases n - i,
        {
            if crate::strutil::str_eq(self.packages[i].name.as_str(), name) {
                return Some(i);
            }
            i = i + 1;
        }
        None
    }

    /// Upsert by name: afterwards the database maps `pkg`'s name to `pkg`
    /// and is otherwise unchanged.
    pub fn add(&mut self, pkg: InstalledPackage)
        requires
            old(self).wf(),
        ensures
            final(self).wf(),
            final(self)@ == old(self)@.insert(pkg@.name, pkg@),
    {
        let ghost name = pkg@.name;
        let ghost s0 = self.packages@;
        let found = self.find(pkg.name.as_str());
        match found {
            Some(i) => {
                proof {
                    lemma_record_map_remove(s0, i as int);
                }
                self.packages.remove(i);
                let ghost s1 = self.packages@;
                proof {
                    assert(s1 =~= s0.remove(i as int));
                    assert forall|a: int, b: int| 0 <= a < b < s1.len() implies
                        (#[trigger] s1[a])@.name != (#[trigger] s1[b])@.name by {
                        let a0 = if a < i { a } else { a + 1 };
                        let b0 = if b < i { b } else { b + 1 };
                        assert(s1[a] == s0[a0]);
                        assert(s1[b] == s0[b0]);
                    }
                }
                self.packages.push(pkg);
                let ghost s2 = self.packages@;
                proof {
                    assert(s2.drop_last() =~= s1);
                    assert(s2.last() == pkg);
                    assert forall|a: int, b: int| 0 <= a < b < s2.len() implies
                        (#[trigger] s2[a])@.name != (#[trigger] s2[b])@.name by {
                        assert(s2[a] == s1[a]);
                        if b < s2.len() - 1 {
                            assert(s2[b] == s1[b]);
                        } else {
                            assert(s2[b] == pkg);
                            let a0 = if a < i { a } else { a + 1 };
                            assert(s1[a] == s0[a0]);
                        }
                    }
                    assert(record_map(s2) == record_map(s1).insert(name, pkg@));
                    assert(record_map(s1) == record_map(s0).remove(name));
                    assert(record_map(s0).remove(name).insert(name, pkg@) =~=
                        record_map(s0).insert(name, pkg@));
                }
            }
            None => {
                self.packages.push(pkg);
                let ghost s2 = self.packages@;
                proof {
                    assert(s2.drop_last() =~= s0);
                    assert(s2.last() == pkg);
                    assert forall|a: int, b: int| 0 <= a < b < s2.len() implies
                        (#[trigger] s2[a])@.name != (#[trigger] s2[b])@.name by {
                        assert(s2[a] == s0[a]);
                        if b < s2.len() - 1 {
                            assert(s2[b] == s0[b]);
                        } else {
                            assert(s2[b] == pkg);
                        }
                    }
                    assert(record_map(s2) == record_map(s0).insert(name, pkg@));
                }
            }
        }
    }

    /// Look a package up by name; `Ok` exactly when it is installed.
    pub fn get(&self, name: &str) -> (r: Result<&InstalledPackage, PkgDbError>)
        requires
            self.wf(),
        ensures
            match r {
                Ok(p) => self@.contains_key(name@) && p@ == self@[name@],
                Err(e) => !self@.contains_key(name@)
                    && (e matches PkgDbError::PackageNotFound(n) && n@ == name@),
            },
    {
        match self.find(name) {
            Some(i) => {
                proof {
                    lemma_record_map_index(self.packages@, name@);
                    assert(exists|j: int| 0 <= j < self.packages@.len()
                        && (#[trigger] self.packages@[j])@.name == name@);
                }
                Ok(&self.packages[i])
            }
            None => {
                proof {
                    lemma_record_map_index(self.packages@, name@);
                }
                Err(PkgDbError::PackageNotFound(String::from_str(name)))
            }
        }
    }

    /// Remove a package by name, returning its record; `Ok` exactly when
    /// it was installed, in which case its key is gone afterwards.
    pub fn remove(&mut self, name: &str) -> (r: Result<InstalledPackage, PkgDbError>)
        requires
            old(self).wf(),
        ensures
            final(self).wf(),
            match r {
                Ok(p) => old(self)@.contains_key(name@)
                    && p@ == old(self)@[name@]
                    && final(self)@ == old(self)@.remove(name@),
                Err(e) => !old(self)@.contains_key(name@)
                    && final(self)@ == old(self)@
                    && (e matches PkgDbError::PackageNotFound(n) && n@ == name@),
            },
    {
        match self.find(name) {
            Some(i) => {
                let ghost s0 = self.packages@;
                proof {
                    lemma_record_map_index(s0, name@);
                    assert(exists|j: int| 0 <= j < s0.len()
                        && (#[trigger] s0[j])@.name == name@);
                    lemma_record_map_remove(s0, i as int);
                }
                let p = self.packages.remove(i);
                let ghost s1 = self.packages@;
                proof {
                    assert(s1 =~= s0.remove(i as int));
                    assert forall|a: int, b: int| 0 <= a < b < s1.len() implies
                        (#[trigger] s1[a])@.name != (#[trigger] s1[b])@.name by {
                        let a0 = if a < i { a } else { a + 1 };
                        let b0 = if b < i { b } else { b + 1 };
                        assert(s1[a] == s0[a0]);
                        assert(s1[b] == s0[b0]);
                    }
                }
                Ok(p)
            }
            None => {
                proof {
                    lemma_record_map_index(self.packages@, name@);
                }
                Err(PkgDbError::PackageNotFound(String::from_str(name)))
            }
        }
    }

    /// The installed records.  Every listed record is in the database
    /// under its own name, and every installed name is listed.
    pub fn list(&self) -> (r: &Vec<InstalledPackage>)
        requires
            self.wf(),
        ensures
            forall|i: int| 0 <= i < r@.len() ==> self@.contains_key((#[trigger] r@[i])@.name)
                && self@[r@[i]@.name] == r@[i]@,
            forall|k: Seq<char>| self@.contains_key(k) ==> exists|i: int|
                0 <= i < r@.len() && (#[trigger] r@[i])@.name == k,
    {
        proof {
            assert forall|i: int| 0 <= i < self.packages@.len() implies
                self@.contains_key((#[trigger] self.packages@[i])@.name)
                    && self@[self.packages@[i]@.name] == self.packages@[i]@ by {
                lemma_record_map_index(self.packages@, self.packages@[i]@.name);
            }
            assert forall|k: Seq<char>| self@.contains_key(k) implies exists|i: int|
                0 <= i < self.packages@.len() && (#[trigger] self.packages@[i])@.name == k by {
                lemma_record_map_index(self.packages@, k);
            }
        }
        &self.packages
    }

    /// Whether a package of this name is installed.
    pub fn contains(&self, name: &str) -> (r: bool)
        requires
            self.wf(),
        ensures
            r == self@.contains_key(name@),
    {
        match self.find(name) {
            Some(i) => {
                proof {
                    lemma_record_map_index(self.packages@, name@);
                    assert(self.packages@[i as int]@.name == name@);
                    assert(exists|j: int| 0 <= j < self.packages@.len()
                        && (#[trigger] self.packages@[j])@.name == name@);
                }
                true
            }
            None => {
                proof {
                    lemma_record_map_index(self.packages@, name@);
                }
                false
            }
        }
    }
}

impl View for PackageDatabase {
    type V = Map<Seq<char>, InstalledPackageV>;

    closed spec fn view(&self) -> Map<Seq<char>, InstalledPackageV> {
        record_map(self.packages@)
    }
}

/// Law: installing the same record twice leaves the database exactly as
/// one install does — re-installation is idempotent on the installed map.
pub proof fn lemma_reinstall_same_record(
    db: Map<Seq<char>, InstalledPackageV>,
    p: InstalledPackageV,
)
    ensures
        db.insert(p.name, p).insert(p.name, p) == db.insert(p.name, p),
{
    assert(db.insert(p.name, p).insert(p.name, p) =~= db.insert(p.name, p));
}

/// Law: after installing a package and then removing it by name, the
/// database no longer knows the name, and the record the removal acted on
/// lists exactly the installed payload's files — so removal unlinks every
/// regular file the install recorded.
pub proof fn lemma_install_then_remove(
    db: Map<Seq<char>, InstalledPackageV>,
    p: InstalledPackageV,
)
    ensures
        db.insert(p.name, p)[p.name].files == p.files,
        !db.insert(p.name, p).remove(p.name).contains_key(p.name),
{
}

} // verus!
