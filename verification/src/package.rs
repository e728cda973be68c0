//! Package manifests.  A manifest document has the shape
//! `package "<name>" version=<str> arch=<str> flavor=<str> { ... }`,
//! with `depends`, `homepage` and `license` children.  `from_kdl` is
//! specified exactly by `manifest_of_text`: it fails on malformed text,
//! on a missing `package` node, a missing name argument, a missing or
//! non-string required property; unrecognised children are ignored.

use vstd::prelude::*;
use crate::kdldoc::DocValue;
use crate::kdldoc::NodeM;
use crate::kdldoc::ValueM;
use crate::kdldoc::first_arg;
use crate::kdldoc::node_lookup;
use crate::kdldoc::prop_lookup;
use crate::kdldoc::kdl_parse_spec;
use crate::kdldoc::kdl_parse;
use crate::kdldoc::kdl_doc_nodes;
use crate::kdldoc::kdl_node_model;
use crate::kdldoc::kdl_doc_len;
use crate::kdldoc::kdl_doc_node;
use crate::kdldoc::kdl_node_name;
use crate::kdldoc::kdl_node_children;
use crate::kdldoc::doc_find_node;
use crate::kdldoc::node_get_prop;
use crate::kdldoc::node_first_arg;
use crate::strutil::str_eq;

verus! {

/// A parsed package manifest.
#[derive(Debug, Clone, PartialEq)]
pub struct Package {
    pub name: String,
    pub version: String,
    pub arch: String,
    pub flavor: String,
    pub depends: Vec<String>,
    pub homepage: Option<String>,
    pub license: Option<String>,
}

/// Mathematical image of a manifest.
pub struct PackageV {
    pub name: Seq<char>,
    pub version: Seq<char>,
    pub arch: Seq<char>,
    pub flavor: Seq<char>,
    pub depends: Seq<Seq<char>>,
    pub homepage: Option<Seq<char>>,
    pub license: Option<Seq<char>>,
}

impl View for Package {
    type V = PackageV;

    open spec fn view(&self) -> PackageV {
        PackageV {
            name: self.name@,
            version: self.version@,
            arch: self.arch@,
            flavor: self.flavor@,
            depends: self.depends.deep_view(),
            homepage: match self.homepage {
                Some(ref h) => Some(h@),
                None => None,
            },
            license: match self.license {
                Some(ref l) => Some(l@),
                None => None,
            },
        }
    }
}

/// Manifest parse failures.
#[derive(Debug, Clone, PartialEq)]
pub enum PackageParseError {
    Parse,
    MissingPackageNode,
    MissingName,
    MissingProperty(String),
    InvalidPropertyValue(String),
}

/// Mathematical image of a manifest parse failure.
pub enum PackageParseErrorV {
    Parse,
    MissingPackageNode,
    MissingName,
    MissingProperty(Seq<char>),
    InvalidPropertyValue(Seq<char>),
}

impl View for PackageParseError {
    type V = PackageParseErrorV;

    open spec fn view(&self) -> PackageParseErrorV {
        match self {
            PackageParseError::Parse => PackageParseErrorV::Parse,
            PackageParseError::MissingPackageNode => PackageParseErrorV::MissingPackageNode,
            PackageParseError::MissingName => PackageParseErrorV::MissingName,
            PackageParseError::MissingProperty(f) => PackageParseErrorV::MissingProperty(f@),
            PackageParseError::InvalidPropertyValue(f) =>
                PackageParseErrorV::InvalidPropertyValue(f@),
        }
    }
}

/// Fold the package node's children left to right: each `depends` child
/// appends its first string argument, `homepage` and `license` set
/// theirs (later children win), everything else is ignored, and so is a
/// child without a string first argument.
pub open spec fn fold_children(
    ch: Seq<NodeM>,
    depends: Seq<Seq<char>>,
    homepage: Option<Seq<char>>,
    license: Option<Seq<char>>,
) -> (Seq<Seq<char>>, Option<Seq<char>>, Option<Seq<char>>)
    decreases ch.len(),
{
    if ch.len() == 0 {
        (depends, homepage, license)
    } else {
        let n = ch[0];
        let rest = ch.drop_first();
        match first_arg(n.entries) {
            Some(ValueM::Str(v)) => if n.name == "depends"@ {
                fold_children(rest, depends.push(v), homepage, license)
            } else if n.name == "homepage"@ {
                fold_children(rest, depends, Some(v), license)
            } else if n.name == "license"@ {
                fold_children(rest, depends, homepage, Some(v))
            } else {
                fold_children(rest, depends, homepage, license)
            },
            _ => fold_children(rest, depends, homepage, license),
        }
    }
}

/// A required string property of the package node.
pub open spec fn required_prop(
    entries: Seq<(Option<Seq<char>>, ValueM)>,
    key: Seq<char>,
) -> Result<Seq<char>, PackageParseErrorV> {
    match prop_lookup(entries, key) {
        None => Err(PackageParseErrorV::MissingProperty(key)),
        Some(ValueM::Str(v)) => Ok(v),
        Some(_) => Err(PackageParseErrorV::InvalidPropertyValue(key)),
    }
}

/// The manifest denoted by a parsed document.
pub open spec fn manifest_spec(nodes: Seq<NodeM>) -> Result<PackageV, PackageParseErrorV> {
    match node_lookup(nodes, "package"@) {
        None => Err(PackageParseErrorV::MissingPackageNode),
        Some(pkg) => match first_arg(pkg.entries) {
            None => Err(PackageParseErrorV::MissingName),
            Some(ValueM::Str(name)) => match required_prop(pkg.entries, "version"@) {
                Err(e) => Err(e),
                Ok(version) => match required_prop(pkg.entries, "arch"@) {
                    Err(e) => Err(e),
                    Ok(arch) => match required_prop(pkg.entries, "flavor"@) {
                        Err(e) => Err(e),
                        Ok(flavor) => {
                            let (depends, homepage, license) =
                                fold_children(pkg.children, Seq::<Seq<char>>::empty(), None, None);
                            Ok(PackageV { name, version, arch, flavor, depends, homepage, license })
                        },
                    },
                },
            },
            Some(_) => Err(PackageParseErrorV::InvalidPropertyValue("name"@)),
        },
    }
}

/// The manifest denoted by a text: a parse failure, or the manifest of
/// the parsed document.
pub open spec fn manifest_of_text(s: Seq<char>) -> Result<PackageV, PackageParseErrorV> {
    match kdl_parse_spec(s) {
        None => Err(PackageParseErrorV::Parse),
        Some(nodes) => manifest_spec(nodes),
    }
}

/// Fetch a required string property of the package node.
fn get_required_prop(pkg: &kdl::KdlNode, key: &str) -> (r: Result<String, PackageParseError>)
    ensures
        match r {
            Ok(v) => required_prop(kdl_node_model(*pkg).entries, key@) == Ok::<Seq<char>,
                PackageParseErrorV>(v@),
            Err(e) => required_prop(kdl_node_model(*pkg).entries, key@) == Err::<Seq<char>,
                PackageParseErrorV>(e@),
        },
{
    match node_get_prop(pkg, key) {
        None => Err(PackageParseError::MissingProperty(key.to_owned())),
        Some(DocValue::Str(v)) => Ok(v),
        Some(_) => Err(PackageParseError::InvalidPropertyValue(key.to_owned())),
    }
}

impl Package {
    /// Parse a manifest document, exactly as `manifest_of_text` denotes.
    #[verifier::loop_isolation(false)]
    pub fn from_kdl(input: &str) -> (r: Result<Package, PackageParseError>)
        ensures
            match r {
                Ok(p) => manifest_of_text(input@) == Ok::<PackageV, PackageParseErrorV>(p@),
                Err(e) => manifest_of_text(input@) == Err::<PackageV, PackageParseErrorV>(e@),
            },
    {
        let doc = match kdl_parse(input) {
            None => {
                return Err(PackageParseError::Parse);
            }
            Some(d) => d,
        };
        let pkg = match doc_find_node(&doc, "package") {
            None => {
                return Err(PackageParseError::MissingPackageNode);
            }
            Some(n) => n,
        };
        let name = match node_first_arg(&pkg) {
            None => {
                return Err(PackageParseError::MissingName);
            }
            Some(DocValue::Str(s)) => s,
            Some(_) => {
                return Err(PackageParseError::InvalidPropertyValue(String::from_str("name")));
            }
        };
        let version = match get_required_prop(&pkg, "version") {
            Ok(v) => v,
            Err(e) => {
                return Err(e);
            }
        };
        let arch = match get_required_prop(&pkg, "arch") {
            Ok(v) => v,
            Err(e) => {
                return Err(e);
            }
        };
        let flavor = match get_required_prop(&pkg, "flavor") {
            Ok(v) => v,
            Err(e) => {
                return Err(e);
            }
        };
        let mut depends: Vec<String> = Vec::new();
        let mut homepage: Option<String> = None;
        let mut license: Option<String> = None;
        let ghost children = kdl_node_model(pkg).children;
        match kdl_node_children(&pkg) {
            None => {
                proof {
                    assert(children =~= Seq::<NodeM>::empty());
                }
            }
            Some(chdoc) => {
                let clen = kdl_doc_len(&chdoc);
                let mut i: usize = 0;
                proof {
                    assert(children.skip(0) =~= children);
                    assert(depends.deep_view() =~= Seq::<Seq<char>>::empty());
                }
                while i < clen
                    invariant
                        i <= clen,
                        clen == children.len(),
                        kdl_doc_nodes(chdoc) == children,
                        fold_children(children.skip(i as int), depends.deep_view(),
                            view_opt(homepage), view_opt(license))
                            == fold_children(children, Seq::<Seq<char>>::empty(), None, None),
                    decreases clen - i,
                {
                    let ghost cn = children[i as int];
                    proof {
                        assert(children.skip(i as int)[0] == cn);
                        assert(children.skip(i as int).drop_first() =~= children.skip(i as int + 1));
                    }
                    let child = kdl_doc_node(&chdoc, i);
                    let child_name = kdl_node_name(&child);
                    match node_first_arg(&child) {
                        Some(DocValue::Str(v)) => {
                            let ghost vv = v@;
                            proof {
                                assert(first_arg(cn.entries) == Some(ValueM::Str(vv)));
                            }
                            if str_eq(child_name.as_str(), "depends") {
                                let ghost dv0 = depends.deep_view();
                                depends.push(v);
                                proof {
                                    assert(depends.deep_view() =~= dv0.push(vv));
                                }
                            } else if str_eq(child_name.as_str(), "homepage") {
                                homepage = Some(v);
                            } else if str_eq(child_name.as_str(), "license") {
                                license = Some(v);
                            }
                        }
                        _ => {}
                    }
                    i = i + 1;
                }
                proof {
                    assert(children.skip(clen as int) =~= Seq::<NodeM>::empty());
                }
            }
        }
        proof {
            let nodes = kdl_doc_nodes(doc);
            let pkgm = kdl_node_model(pkg);
            assert(fold_children(pkgm.children, Seq::<Seq<char>>::empty(), None, None)
                == (depends.deep_view(), view_opt(homepage), view_opt(license)));
            assert(manifest_spec(nodes) == Ok::<PackageV, PackageParseErrorV>(PackageV {
                name: name@,
                version: version@,
                arch: arch@,
                flavor: flavor@,
                depends: depends.deep_view(),
                homepage: view_opt(homepage),
                license: view_opt(license),
            }));
        }
        Ok(Package { name, version, arch, flavor, depends, homepage, license })
    }
}

/// The view of an optional string.
pub open spec fn view_opt(o: Option<String>) -> Option<Seq<char>> {
    match o {
        Some(s) => Some(s@),
        None => None,
    }
}

} // verus!
