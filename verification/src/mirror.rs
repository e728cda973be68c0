//! Mirror configuration.  A mirror list is a KDL document of
//! `mirror "<name>" url=<str> [priority=<int>] [protocol=<str>]
//! [region=<str>] [active=<bool>]` nodes.  Parsing yields the mirrors
//! sorted by priority, highest first and stably, with inactive mirrors
//! dropped after the sort — `from_kdl` is specified exactly by
//! `mirror_list_spec`, and its result is proved sorted and active.

use vstd::prelude::*;
use crate::kdldoc::DocValue;
use crate::kdldoc::NodeM;
use crate::kdldoc::ValueM;
use crate::kdldoc::first_arg;
use crate::kdldoc::prop_lookup;
use crate::kdldoc::kdl_parse_spec;
use crate::kdldoc::kdl_parse;
use crate::kdldoc::kdl_doc_nodes;
use crate::kdldoc::kdl_node_model;
use crate::kdldoc::kdl_doc_len;
use crate::kdldoc::kdl_doc_node;
use crate::kdldoc::kdl_node_name;
use crate::kdldoc::node_get_prop;
use crate::kdldoc::node_first_arg;
use crate::strutil::str_eq;
use crate::strutil::trim_trailing_slashes;
use crate::strutil::trim_end_slashes;

verus! {

/// One configured mirror.
#[derive(Debug, Clone, PartialEq)]
pub struct Mirror {
    pub name: String,
    pub url: String,
    pub priority: i32,
    pub protocol: String,
    pub region: String,
    pub active: bool,
}

/// Mathematical image of a mirror.
pub struct MirrorV {
    pub name: Seq<char>,
    pub url: Seq<char>,
    pub priority: int,
    pub protocol: Seq<char>,
    pub region: Seq<char>,
    pub active: bool,
}

impl View for Mirror {
    type V = MirrorV;

    open spec fn view(&self) -> MirrorV {
        MirrorV {
            name: self.name@,
            url: self.url@,
            priority: self.priority as int,
            protocol: self.protocol@,
            region: self.region@,
            active: self.active,
        }
    }
}

impl DeepView for Mirror {
    type V = MirrorV;

    open spec fn deep_view(&self) -> MirrorV {
        self.view()
    }
}

/// Mirror-list failures.  The I/O variant carries the message of the
/// error met by the caller reading the file.
#[derive(Debug, Clone, PartialEq)]
pub enum MirrorError {
    Io(String),
    Parse,
    MissingProperty { name: String, field: String },
    InvalidValue { name: String, field: String },
}

/// Mathematical image of a mirror-list failure.
pub enum MirrorErrorV {
    Io(Seq<char>),
    Parse,
    MissingProperty { name: Seq<char>, field: Seq<char> },
    InvalidValue { name: Seq<char>, field: Seq<char> },
}

impl View for MirrorError {
    type V = MirrorErrorV;

    open spec fn view(&self) -> MirrorErrorV {
        match self {
            MirrorError::Io(m) => MirrorErrorV::Io(m@),
            MirrorError::Parse => MirrorErrorV::Parse,
            MirrorError::MissingProperty { name, field } => MirrorErrorV::MissingProperty {
                name: name@,
                field: field@,
            },
            MirrorError::InvalidValue { name, field } => MirrorErrorV::InvalidValue {
                name: name@,
                field: field@,
            },
        }
    }
}

/// An optional string property with a default; nothing on a non-string.
pub open spec fn opt_str_prop(
    entries: Seq<(Option<Seq<char>>, ValueM)>,
    key: Seq<char>,
    dflt: Seq<char>,
) -> Option<Seq<char>> {
    match prop_lookup(entries, key) {
        None => Some(dflt),
        Some(ValueM::Str(s)) => Some(s),
        Some(_) => None,
    }
}

/// The priority property: absent means zero; an integer must fit `i32`.
pub open spec fn prio_prop(entries: Seq<(Option<Seq<char>>, ValueM)>) -> Option<int> {
    match prop_lookup(entries, "priority"@) {
        None => Some(0),
        Some(ValueM::Int(i)) => if -0x8000_0000 <= i <= 0x7fff_ffff {
            Some(i)
        } else {
            None
        },
        Some(_) => None,
    }
}

/// The active property: absent means active; a boolean, or the strings
/// `true` and `false`.
pub open spec fn active_prop(entries: Seq<(Option<Seq<char>>, ValueM)>) -> Option<bool> {
    match prop_lookup(entries, "active"@) {
        None => Some(true),
        Some(ValueM::Bool(b)) => Some(b),
        Some(ValueM::Str(s)) => if s == "true"@ {
            Some(true)
        } else if s == "false"@ {
            Some(false)
        } else {
            None
        },
        Some(_) => None,
    }
}

/// The mirror denoted by one `mirror` node.
pub open spec fn mirror_of_node(n: NodeM) -> Result<MirrorV, MirrorErrorV> {
    match first_arg(n.entries) {
        Some(ValueM::Str(name)) => match prop_lookup(n.entries, "url"@) {
            None => Err(MirrorErrorV::MissingProperty { name, field: "url"@ }),
            Some(ValueM::Str(url)) => match prio_prop(n.entries) {
                None => Err(MirrorErrorV::InvalidValue { name, field: "priority"@ }),
                Some(priority) => match opt_str_prop(n.entries, "protocol"@, "https"@) {
                    None => Err(MirrorErrorV::InvalidValue { name, field: "protocol"@ }),
                    Some(protocol) => match opt_str_prop(n.entries, "region"@, "global"@) {
                        None => Err(MirrorErrorV::InvalidValue { name, field: "region"@ }),
                        Some(region) => match active_prop(n.entries) {
                            None => Err(MirrorErrorV::InvalidValue { name, field: "active"@ }),
                            Some(active) => Ok(MirrorV {
                                name,
                                url,
                                priority,
                                protocol,
                                region,
                                active,
                            }),
                        },
                    },
                },
            },
            Some(_) => Err(MirrorErrorV::InvalidValue { name, field: "url"@ }),
        },
        _ => Err(MirrorErrorV::MissingProperty { name: "unknown"@, field: "name"@ }),
    }
}

/// Parse the `mirror` nodes left to right, accumulating; other nodes
/// are ignored, and the first bad node's error is the result.
pub open spec fn parse_mirrors(nodes: Seq<NodeM>, acc: Seq<MirrorV>) -> Result<
    Seq<MirrorV>,
    MirrorErrorV,
>
    decreases nodes.len(),
{
    if nodes.len() == 0 {
        Ok(acc)
    } else if nodes[0].name != "mirror"@ {
        parse_mirrors(nodes.drop_first(), acc)
    } else {
        match mirror_of_node(nodes[0]) {
            Err(e) => Err(e),
            Ok(m) => parse_mirrors(nodes.drop_first(), acc.push(m)),
        }
    }
}

/// Insert a mirror into a priority-descending list: it goes before the
/// first strictly lower priority, after any equal one — stable.
pub open spec fn insert_desc(s: Seq<MirrorV>, m: MirrorV) -> Seq<MirrorV>
    decreases s.len(),
{
    if s.len() == 0 {
        seq![m]
    } else if m.priority > s[0].priority {
        seq![m] + s
    } else {
        seq![s[0]] + insert_desc(s.drop_first(), m)
    }
}

/// Stable insertion sort by priority, highest first.
pub open spec fn sort_desc(s: Seq<MirrorV>) -> Seq<MirrorV>
    decreases s.len(),
{
    if s.len() == 0 {
        Seq::empty()
    } else {
        insert_desc(sort_desc(s.drop_last()), s.last())
    }
}

/// Priorities never increase along the list.
pub open spec fn sorted_desc(s: Seq<MirrorV>) -> bool {
    forall|i: int, j: int| 0 <= i < j < s.len()
        ==> (#[trigger] s[i]).priority >= (#[trigger] s[j]).priority
}

/// The mirror list denoted by a text: parse, sort by priority
/// descending, then keep the active mirrors.
pub open spec fn mirror_list_spec(s: Seq<char>) -> Result<Seq<MirrorV>, MirrorErrorV> {
    match kdl_parse_spec(s) {
        None => Err(MirrorErrorV::Parse),
        Some(nodes) => match parse_mirrors(nodes, Seq::empty()) {
            Err(e) => Err(e),
            Ok(ms) => Ok(sort_desc(ms).filter(|m: MirrorV| m.active)),
        },
    }
}

/// `insert_desc` inserts exactly at the first position of strictly
/// lower priority.
proof fn lemma_insert_desc_at(s: Seq<MirrorV>, m: MirrorV, k: int)
    requires
        0 <= k <= s.len(),
        forall|j: int| 0 <= j < k ==> !(m.priority > (#[trigger] s[j]).priority),
        k < s.len() ==> m.priority > s[k].priority,
    ensures
        insert_desc(s, m) == s.insert(k, m),
    decreases s.len(),
{
    if s.len() == 0 {
        assert(insert_desc(s, m) =~= s.insert(0, m));
    } else if m.priority > s[0].priority {
        assert(k == 0);
        assert(seq![m] + s =~= s.insert(0, m));
    } else {
        assert(k >= 1);
        let rest = s.drop_first();
        assert forall|j: int| 0 <= j < k - 1 implies !(m.priority
            > (#[trigger] rest[j]).priority) by {
            assert(rest[j] == s[j + 1]);
        }
        if k - 1 < rest.len() {
            assert(rest[k - 1] == s[k]);
        }
        lemma_insert_desc_at(rest, m, k - 1);
        assert(seq![s[0]] + rest.insert(k - 1, m) =~= s.insert(k, m));
    }
}

/// Inserting into a sorted list keeps it sorted.
proof fn lemma_insert_desc_sorted(s: Seq<MirrorV>, m: MirrorV)
    requires
        sorted_desc(s),
    ensures
        sorted_desc(insert_desc(s, m)),
    decreases s.len(),
{
    if s.len() == 0 {
    } else if m.priority > s[0].priority {
        let out = seq![m] + s;
        assert forall|i: int, j: int| 0 <= i < j < out.len() implies
            (#[trigger] out[i]).priority >= (#[trigger] out[j]).priority by {
            if i > 0 {
                assert(out[i] == s[i - 1]);
            }
            assert(out[j] == s[j - 1]);
        }
    } else {
        let rest = s.drop_first();
        assert(sorted_desc(rest)) by {
            assert forall|i: int, j: int| 0 <= i < j < rest.len() implies
                (#[trigger] rest[i]).priority >= (#[trigger] rest[j]).priority by {
                assert(rest[i] == s[i + 1]);
                assert(rest[j] == s[j + 1]);
            }
        }
        lemma_insert_desc_sorted(rest, m);
        let ins = insert_desc(rest, m);
        let out = seq![s[0]] + ins;
        assert(forall|x: MirrorV| ins.contains(x) ==> rest.contains(x) || x == m) by {
            lemma_insert_desc_contains(rest, m);
        }
        assert forall|i: int, j: int| 0 <= i < j < out.len() implies
            (#[trigger] out[i]).priority >= (#[trigger] out[j]).priority by {
            if i == 0 {
                assert(out[j] == ins[j - 1]);
                assert(ins.contains(ins[j - 1]));
                if rest.contains(ins[j - 1]) {
                    let q = choose|q: int| 0 <= q < rest.len() && rest[q] == ins[j - 1];
                    assert(s[q + 1] == rest[q]);
                }
            } else {
                assert(out[i] == ins[i - 1]);
                assert(out[j] == ins[j - 1]);
            }
        }
    }
}

/// Everything in an insertion's result was in the list or is the
/// inserted mirror.
proof fn lemma_insert_desc_contains(s: Seq<MirrorV>, m: MirrorV)
    ensures
        forall|x: MirrorV| #[trigger] insert_desc(s, m).contains(x) ==> s.contains(x) || x == m,
    decreases s.len(),
{
    if s.len() == 0 {
    } else if m.priority > s[0].priority {
        assert forall|x: MirrorV| #[trigger] insert_desc(s, m).contains(x) implies s.contains(x)
            || x == m by {
            let out = seq![m] + s;
            let q = choose|q: int| 0 <= q < out.len() && out[q] == x;
            if q > 0 {
                assert(s[q - 1] == x);
            }
        }
    } else {
        let rest = s.drop_first();
        lemma_insert_desc_contains(rest, m);
        assert forall|x: MirrorV| #[trigger] insert_desc(s, m).contains(x) implies s.contains(x)
            || x == m by {
            let out = seq![s[0]] + insert_desc(rest, m);
            let q = choose|q: int| 0 <= q < out.len() && out[q] == x;
            if q == 0 {
                assert(s[0] == x);
            } else {
                assert(insert_desc(rest, m).contains(x));
                if rest.contains(x) {
                    let p = choose|p: int| 0 <= p < rest.len() && rest[p] == x;
                    assert(s[p + 1] == x);
                }
            }
        }
    }
}

/// The sort's result is sorted.
proof fn lemma_sort_desc_sorted(s: Seq<MirrorV>)
    ensures
        sorted_desc(sort_desc(s)),
    decreases s.len(),
{
    if s.len() != 0 {
        lemma_sort_desc_sorted(s.drop_last());
        lemma_insert_desc_sorted(sort_desc(s.drop_last()), s.last());
    }
}

/// Filtering a sorted list keeps it sorted, and keeps only what the
/// predicate accepts.
proof fn lemma_filter_active_sorted(s: Seq<MirrorV>)
    requires
        sorted_desc(s),
    ensures
        sorted_desc(s.filter(|m: MirrorV| m.active)),
    decreases s.len(),
{
    reveal(Seq::filter);
    if s.len() != 0 {
        let rest = s.drop_last();
        assert(sorted_desc(rest)) by {
            assert forall|i: int, j: int| 0 <= i < j < rest.len() implies
                (#[trigger] rest[i]).priority >= (#[trigger] rest[j]).priority by {
                assert(rest[i] == s[i]);
                assert(rest[j] == s[j]);
            }
        }
        lemma_filter_active_sorted(rest);
        let p = |m: MirrorV| m.active;
        let fl = rest.filter(p);
        if p(s.last()) {
            let out = fl.push(s.last());
            assert forall|i: int, j: int| 0 <= i < j < out.len() implies
                (#[trigger] out[i]).priority >= (#[trigger] out[j]).priority by {
                if j < out.len() - 1 {
                    assert(out[i] == fl[i]);
                    assert(out[j] == fl[j]);
                } else {
                    assert(out[i] == fl[i]);
                    assert(fl.contains(fl[i]));
                    rest.lemma_filter_contains_rev(p, fl[i]);
                    let q = choose|q: int| 0 <= q < rest.len() && rest[q] == fl[i];
                    assert(s[q] == rest[q]);
                    assert(s[q].priority >= s[s.len() - 1].priority);
                }
            }
        }
    }
}

/// The position a mirror is inserted at: just before the first entry of
/// strictly lower priority.
fn insert_pos(sorted: &Vec<Mirror>, m: &Mirror) -> (pos: usize)
    ensures
        pos <= sorted@.len(),
        forall|j: int| 0 <= j < pos
            ==> !(m@.priority > (#[trigger] sorted.deep_view()[j]).priority),
        pos < sorted@.len() ==> m@.priority > sorted.deep_view()[pos as int].priority,
{
    let n = sorted.len();
    let mut pos: usize = 0;
    while pos < n
        invariant_except_break
            pos <= n,
            n == sorted@.len(),
            forall|j: int| 0 <= j < pos
                ==> !(m@.priority > (#[trigger] sorted.deep_view()[j]).priority),
        ensures
            pos <= n,
            n == sorted@.len(),
            forall|j: int| 0 <= j < pos
                ==> !(m@.priority > (#[trigger] sorted.deep_view()[j]).priority),
            pos < n ==> m@.priority > sorted.deep_view()[pos as int].priority,
        decreases n - pos,
    {
        if m.priority > sorted[pos].priority {
            break;
        }
        pos = pos + 1;
    }
    pos
}

impl Mirror {
    /// An identical copy.
    pub fn duplicate(&self) -> (r: Self)
        ensures
            r@ == self@,
    {
        Mirror {
            name: self.name.clone(),
            url: self.url.clone(),
            priority: self.priority,
            protocol: self.protocol.clone(),
            region: self.region.clone(),
            active: self.active,
        }
    }

    /// The URL of one repository's database under this mirror:
    /// `<url>/<flavour>/<repo>/<arch>/<repo>.db.zst`, with trailing
    /// slashes of the mirror URL dropped.
    pub fn repo_url(&self, flavour: &str, repo: &str, arch: &str) -> (r: String)
        ensures
            r@ == trim_trailing_slashes(self@.url) + "/"@ + flavour@ + "/"@ + repo@ + "/"@
                + arch@ + "/"@ + repo@ + ".db.zst"@,
    {
        let mut out = trim_end_slashes(self.url.as_str());
        out.append("/");
        out.append(flavour);
        out.append("/");
        out.append(repo);
        out.append("/");
        out.append(arch);
        out.append("/");
        out.append(repo);
        out.append(".db.zst");
        out
    }

    /// Parse one `mirror` node.
    fn of_node(n: &kdl::KdlNode) -> (r: Result<Mirror, MirrorError>)
        ensures
            match r {
                Ok(m) => mirror_of_node(kdl_node_model(*n)) == Ok::<MirrorV, MirrorErrorV>(m@),
                Err(e) => mirror_of_node(kdl_node_model(*n)) == Err::<MirrorV, MirrorErrorV>(e@),
            },
    {
        let name = match node_first_arg(n) {
            Some(DocValue::Str(s)) => s,
            _ => {
                return Err(MirrorError::MissingProperty {
                    name: String::from_str("unknown"),
                    field: String::from_str("name"),
                });
            }
        };
        let url = match node_get_prop(n, "url") {
            None => {
                return Err(MirrorError::MissingProperty {
                    name,
                    field: String::from_str("url"),
                });
            }
            Some(DocValue::Str(s)) => s,
            Some(_) => {
                return Err(MirrorError::InvalidValue { name, field: String::from_str("url") });
            }
        };
        let priority: i32 = match node_get_prop(n, "priority") {
            None => 0,
            Some(DocValue::Int(i)) => {
                if -0x8000_0000i128 <= i && i <= 0x7fff_ffffi128 {
                    i as i32
                } else {
                    return Err(MirrorError::InvalidValue {
                        name,
                        field: String::from_str("priority"),
                    });
                }
            }
            Some(_) => {
                return Err(MirrorError::InvalidValue {
                    name,
                    field: String::from_str("priority"),
                });
            }
        };
        let protocol = match node_get_prop(n, "protocol") {
            None => String::from_str("https"),
            Some(DocValue::Str(s)) => s,
            Some(_) => {
                return Err(MirrorError::InvalidValue {
                    name,
                    field: String::from_str("protocol"),
                });
            }
        };
        let region = match node_get_prop(n, "region") {
            None => String::from_str("global"),
            Some(DocValue::Str(s)) => s,
            Some(_) => {
                return Err(MirrorError::InvalidValue {
                    name,
                    field: String::from_str("region"),
                });
            }
        };
        let active = match node_get_prop(n, "active") {
            None => true,
            Some(DocValue::Bool(b)) => b,
            Some(DocValue::Str(s)) => {
                if str_eq(s.as_str(), "true") {
                    true
                } else if str_eq(s.as_str(), "false") {
                    false
                } else {
                    return Err(MirrorError::InvalidValue {
                        name,
                        field: String::from_str("active"),
                    });
                }
            }
            Some(_) => {
                return Err(MirrorError::InvalidValue {
                    name,
                    field: String::from_str("active"),
                });
            }
        };
        Ok(Mirror { name, url, priority, protocol, region, active })
    }

    /// Parse a mirror list, exactly as `mirror_list_spec` denotes; the
    /// result is sorted by priority, highest first, and wholly active.
    #[verifier::loop_isolation(false)]
    pub fn from_kdl(input: &str) -> (r: Result<Vec<Mirror>, MirrorError>)
        ensures
            match r {
                Ok(v) => mirror_list_spec(input@) == Ok::<Seq<MirrorV>, MirrorErrorV>(
                    v.deep_view())
                    && sorted_desc(v.deep_view())
                    && (forall|i: int| 0 <= i < v.deep_view().len()
                        ==> (#[trigger] v.deep_view()[i]).active),
                Err(e) => mirror_list_spec(input@) == Err::<Seq<MirrorV>, MirrorErrorV>(e@),
            },
    {
        broadcast use vstd::seq_lib::group_filter_ensures;

        let doc = match kdl_parse(input) {
            None => {
                return Err(MirrorError::Parse);
            }
            Some(d) => d,
        };
        let ghost nodes = kdl_doc_nodes(doc);
        let len = kdl_doc_len(&doc);
        let mut parsed: Vec<Mirror> = Vec::new();
        let mut i: usize = 0;
        proof {
            assert(nodes.skip(0) =~= nodes);
            assert(parsed.deep_view() =~= Seq::<MirrorV>::empty());
        }
        while i < len
            invariant
                i <= len,
                len == nodes.len(),
                parse_mirrors(nodes.skip(i as int), parsed.deep_view())
                    == parse_mirrors(nodes, Seq::empty()),
            decreases len - i,
        {
            proof {
                assert(nodes.skip(i as int)[0] == nodes[i as int]);
                assert(nodes.skip(i as int).drop_first() =~= nodes.skip(i as int + 1));
            }
            let node = kdl_doc_node(&doc, i);
            let node_name = kdl_node_name(&node);
            if str_eq(node_name.as_str(), "mirror") {
                match Self::of_node(&node) {
                    Err(e) => {
                        return Err(e);
                    }
                    Ok(m) => {
                        let ghost dv0 = parsed.deep_view();
                        let ghost mv = m@;
                        parsed.push(m);
                        proof {
                            assert(parsed.deep_view() =~= dv0.push(mv));
                        }
                    }
                }
            }
            i = i + 1;
        }
        proof {
            assert(nodes.skip(len as int) =~= Seq::<NodeM>::empty());
        }
        let ghost parsedv = parsed.deep_view();
        let mut sorted: Vec<Mirror> = Vec::new();
        let mut k: usize = 0;
        proof {
            assert(sorted.deep_view() =~= sort_desc(parsedv.subrange(0, 0)));
        }
        while k < parsed.len()
            invariant
                k <= parsed@.len(),
                parsedv == parsed.deep_view(),
                sorted.deep_view() == sort_desc(parsedv.subrange(0, k as int)),
            decreases parsed@.len() - k,
        {
            let m = parsed[k].duplicate();
            let ghost mv = m@;
            let pos = insert_pos(&sorted, &m);
            let ghost sdv = sorted.deep_view();
            sorted.insert(pos, m);
            proof {
                lemma_insert_desc_at(sdv, mv, pos as int);
                assert(sorted.deep_view() =~= sdv.insert(pos as int, mv));
                assert(parsedv.subrange(0, k as int + 1).drop_last()
                    =~= parsedv.subrange(0, k as int));
                assert(parsedv.subrange(0, k as int + 1).last() == mv);
            }
            k = k + 1;
        }
        proof {
            assert(parsedv.subrange(0, parsedv.len() as int) =~= parsedv);
            lemma_sort_desc_sorted(parsedv);
            lemma_filter_active_sorted(sort_desc(parsedv));
        }
        let ghost sortedv = sorted.deep_view();
        let mut out: Vec<Mirror> = Vec::new();
        let mut q: usize = 0;
        proof {
            assert(sortedv.subrange(0, 0) =~= Seq::<MirrorV>::empty());
            reveal_with_fuel(Seq::filter, 2);
            assert(out.deep_view() =~= sortedv.subrange(0, 0).filter(|m: MirrorV| m.active));
        }
        while q < sorted.len()
            invariant
                q <= sorted@.len(),
                sortedv == sorted.deep_view(),
                out.deep_view() == sortedv.subrange(0, q as int).filter(|m: MirrorV| m.active),
            decreases sorted@.len() - q,
        {
            let ghost pre = sortedv.subrange(0, q as int);
            let ghost cur = sortedv.subrange(0, q as int + 1);
            proof {
                assert(cur.drop_last() =~= pre);
                assert(cur.last() == sortedv[q as int]);
                reveal_with_fuel(Seq::filter, 2);
            }
            if sorted[q].active {
                let ghost dv0 = out.deep_view();
                let mm = sorted[q].duplicate();
                let ghost mmv = mm@;
                out.push(mm);
                proof {
                    assert(out.deep_view() =~= dv0.push(mmv));
                }
            }
            q = q + 1;
        }
        proof {
            assert(sortedv.subrange(0, sortedv.len() as int) =~= sortedv);
            assert(out.deep_view() == sort_desc(parsedv).filter(|m: MirrorV| m.active));
        }
        Ok(out)
    }
}

} // verus!
