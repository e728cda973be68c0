//! The structured-document seam.  Manifest and mirror files are KDL
//! text; the grammar itself is the kdl crate's business and is treated
//! as opaque.  Each parsed document is modelled by `NodeM` trees: what
//! the parser returns for a given text is named by `kdl_parse_spec`, and
//! small trusted accessors expose a document's nodes, entries and
//! children as plain values.  Everything that walks a document — lookup
//! by node name, property lookup, first argument — is verified against
//! that model.

use vstd::prelude::*;
use crate::strutil::str_eq;

verus! {

/// A document value as the walkers see it: a string, an integer, a
/// boolean, null, or something the manifests have no use for.
#[derive(Debug, Clone, PartialEq)]
pub enum DocValue {
    Str(String),
    Int(i128),
    Bool(bool),
    Null,
    Other,
}

/// Mathematical image of a document value.
pub enum ValueM {
    Str(Seq<char>),
    Int(int),
    Bool(bool),
    Null,
    Other,
}

impl View for DocValue {
    type V = ValueM;

    open spec fn view(&self) -> ValueM {
        match self {
            DocValue::Str(s) => ValueM::Str(s@),
            DocValue::Int(i) => ValueM::Int(*i as int),
            DocValue::Bool(b) => ValueM::Bool(*b),
            DocValue::Null => ValueM::Null,
            DocValue::Other => ValueM::Other,
        }
    }
}

/// Mathematical image of a document node: its name, its entries (an
/// optional property name and a value, in source order), and its child
/// nodes.
pub struct NodeM {
    pub name: Seq<char>,
    pub entries: Seq<(Option<Seq<char>>, ValueM)>,
    pub children: Seq<NodeM>,
}

#[verifier::external_type_specification]
#[verifier::external_body]
pub struct ExKdlDocument(kdl::KdlDocument);

#[verifier::external_type_specification]
#[verifier::external_body]
pub struct ExKdlNode(kdl::KdlNode);

/// What parsing a KDL text yields: the model of its top-level nodes, or
/// nothing if the text is not well-formed KDL.  A function of the text
/// alone.
pub uninterp spec fn kdl_parse_spec(s: Seq<char>) -> Option<Seq<NodeM>>;

/// The models of a parsed document's top-level nodes.
pub uninterp spec fn kdl_doc_nodes(d: kdl::KdlDocument) -> Seq<NodeM>;

/// The model of a parsed node.
pub uninterp spec fn kdl_node_model(n: kdl::KdlNode) -> NodeM;

/// Relies on `kdl::KdlDocument::parse`: parses KDL text, a function of
/// the text alone.
#[verifier::external_body]
pub(crate) fn kdl_parse(s: &str) -> (r: Option<kdl::KdlDocument>)
    ensures
        match r {
            Some(d) => kdl_parse_spec(s@) == Some(kdl_doc_nodes(d)),
            None => kdl_parse_spec(s@) is None,
        },
{
    kdl::KdlDocument::parse(s).ok()
}

/// Relies on `kdl::KdlDocument::nodes`: how many top-level nodes the
/// document has.
#[verifier::external_body]
pub(crate) fn kdl_doc_len(d: &kdl::KdlDocument) -> (r: usize)
    ensures
        r == kdl_doc_nodes(*d).len(),
{
    d.nodes().len()
}

/// Relies on `kdl::KdlDocument::nodes` and `kdl::KdlNode::clone`: the
/// node at an index.
#[verifier::external_body]
pub(crate) fn kdl_doc_node(d: &kdl::KdlDocument, i: usize) -> (r: kdl::KdlNode)
    requires
        i < kdl_doc_nodes(*d).len(),
    ensures
        kdl_node_model(r) == kdl_doc_nodes(*d)[i as int],
{
    d.nodes()[i].clone()
}

/// Relies on `kdl::KdlNode::name`: the node's name.
#[verifier::external_body]
pub(crate) fn kdl_node_name(n: &kdl::KdlNode) -> (r: String)
    ensures
        r@ == kdl_node_model(*n).name,
{
    n.name().value().to_string()
}

/// Relies on `kdl::KdlNode::entries`: how many entries the node has.
#[verifier::external_body]
pub(crate) fn kdl_node_entry_count(n: &kdl::KdlNode) -> (r: usize)
    ensures
        r == kdl_node_model(*n).entries.len(),
{
    n.entries().len()
}

/// Relies on `kdl::KdlEntry::name`: the property name of the entry at
/// an index, or nothing for a plain argument.
#[verifier::external_body]
pub(crate) fn kdl_node_entry_name(n: &kdl::KdlNode, i: usize) -> (r: Option<String>)
    requires
        i < kdl_node_model(*n).entries.len(),
    ensures
        match r {
            Some(s) => kdl_node_model(*n).entries[i as int].0 == Some(s@),
            None => kdl_node_model(*n).entries[i as int].0 is None,
        },
{
    n.entries()[i].name().map(|id| id.value().to_string())
}

/// Relies on `kdl::KdlEntry::value`: the value of the entry at an
/// index, one arm per value variant.
#[verifier::external_body]
pub(crate) fn kdl_node_entry_value(n: &kdl::KdlNode, i: usize) -> (r: DocValue)
    requires
        i < kdl_node_model(*n).entries.len(),
    ensures
        r@ == kdl_node_model(*n).entries[i as int].1,
{
    match n.entries()[i].value() {
        kdl::KdlValue::String(s) => DocValue::Str(s.clone()),
        kdl::KdlValue::Integer(v) => DocValue::Int(*v),
        kdl::KdlValue::Bool(b) => DocValue::Bool(*b),
        kdl::KdlValue::Null => DocValue::Null,
        kdl::KdlValue::Float(_) => DocValue::Other,
    }
}

/// Relies on `kdl::KdlNode::children`: the node's child document; a
/// node without a children block has no child nodes.
#[verifier::external_body]
pub(crate) fn kdl_node_children(n: &kdl::KdlNode) -> (r: Option<kdl::KdlDocument>)
    ensures
        match r {
            Some(d) => kdl_doc_nodes(d) == kdl_node_model(*n).children,
            None => kdl_node_model(*n).children.len() == 0,
        },
{
    n.children().cloned()
}

/// The first node of a given name, if any.
pub open spec fn node_lookup(nodes: Seq<NodeM>, name: Seq<char>) -> Option<NodeM>
    decreases nodes.len(),
{
    if nodes.len() == 0 {
        None
    } else if nodes[0].name == name {
        Some(nodes[0])
    } else {
        node_lookup(nodes.drop_first(), name)
    }
}

/// The value of the first entry carrying a given property name, if any.
pub open spec fn prop_lookup(
    entries: Seq<(Option<Seq<char>>, ValueM)>,
    key: Seq<char>,
) -> Option<ValueM>
    decreases entries.len(),
{
    if entries.len() == 0 {
        None
    } else if entries[0].0 == Some(key) {
        Some(entries[0].1)
    } else {
        prop_lookup(entries.drop_first(), key)
    }
}

/// The value of the first plain (unnamed) argument, if any.
pub open spec fn first_arg(entries: Seq<(Option<Seq<char>>, ValueM)>) -> Option<ValueM>
    decreases entries.len(),
{
    if entries.len() == 0 {
        None
    } else if entries[0].0 is None {
        Some(entries[0].1)
    } else {
        first_arg(entries.drop_first())
    }
}

/// Find the first top-level node of a given name.
#[verifier::loop_isolation(false)]
pub(crate) fn doc_find_node(d: &kdl::KdlDocument, name: &str) -> (r: Option<kdl::KdlNode>)
    ensures
        match r {
            Some(n) => node_lookup(kdl_doc_nodes(*d), name@) == Some(kdl_node_model(n)),
            None => node_lookup(kdl_doc_nodes(*d), name@) is None,
        },
{
    let ghost nodes = kdl_doc_nodes(*d);
    let len = kdl_doc_len(d);
    let mut i: usize = 0;
    proof {
        assert(nodes.skip(0) =~= nodes);
    }
    while i < len
        invariant
            i <= len,
            node_lookup(nodes.skip(i as int), name@) == node_lookup(nodes, name@),
        decreases len - i,
    {
        let n = kdl_doc_node(d, i);
        let n_name = kdl_node_name(&n);
        proof {
            assert(nodes.skip(i as int)[0] == nodes[i as int]);
            assert(nodes.skip(i as int).drop_first() =~= nodes.skip(i as int + 1));
        }
        if str_eq(n_name.as_str(), name) {
            return Some(n);
        }
        i = i + 1;
    }
    proof {
        assert(nodes.skip(len as int) =~= Seq::<NodeM>::empty());
    }
    None
}

/// Look a property up on a node.
#[verifier::loop_isolation(false)]
pub(crate) fn node_get_prop(n: &kdl::KdlNode, key: &str) -> (r: Option<DocValue>)
    ensures
        match r {
            Some(v) => prop_lookup(kdl_node_model(*n).entries, key@) == Some(v@),
            None => prop_lookup(kdl_node_model(*n).entries, key@) is None,
        },
{
    let ghost entries = kdl_node_model(*n).entries;
    let count = kdl_node_entry_count(n);
    let mut i: usize = 0;
    proof {
        assert(entries.skip(0) =~= entries);
    }
    while i < count
        invariant
            i <= count,
            prop_lookup(entries.skip(i as int), key@) == prop_lookup(entries, key@),
        decreases count - i,
    {
        proof {
            assert(entries.skip(i as int)[0] == entries[i as int]);
            assert(entries.skip(i as int).drop_first() =~= entries.skip(i as int + 1));
        }
        match kdl_node_entry_name(n, i) {
            Some(en) => {
                if str_eq(en.as_str(), key) {
                    let v = kdl_node_entry_value(n, i);
                    return Some(v);
                }
            }
            None => {}
        }
        i = i + 1;
    }
    proof {
        assert(entries.skip(count as int) =~= Seq::<(Option<Seq<char>>, ValueM)>::empty());
    }
    None
}

/// The node's first plain argument.
#[verifier::loop_isolation(false)]
pub(crate) fn node_first_arg(n: &kdl::KdlNode) -> (r: Option<DocValue>)
    ensures
        match r {
            Some(v) => first_arg(kdl_node_model(*n).entries) == Some(v@),
            None => first_arg(kdl_node_model(*n).entries) is None,
        },
{
    let ghost entries = kdl_node_model(*n).entries;
    let count = kdl_node_entry_count(n);
    let mut i: usize = 0;
    proof {
        assert(entries.skip(0) =~= entries);
    }
    while i < count
        invariant
            i <= count,
            first_arg(entries.skip(i as int)) == first_arg(entries),
        decreases count - i,
    {
        proof {
            assert(entries.skip(i as int)[0] == entries[i as int]);
            assert(entries.skip(i as int).drop_first() =~= entries.skip(i as int + 1));
        }
        match kdl_node_entry_name(n, i) {
            None => {
                let v = kdl_node_entry_value(n, i);
                return Some(v);
            }
            Some(_) => {}
        }
        i = i + 1;
    }
    proof {
        assert(entries.skip(count as int) =~= Seq::<(Option<Seq<char>>, ValueM)>::empty());
    }
    None
}

} // verus!
