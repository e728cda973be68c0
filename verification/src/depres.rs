//! Dependency resolution: the package universe loaded from repository
//! databases, version predicates, and the depth-first resolver producing
//! a closed set of selections.  The resolver is specified by a recursive
//! mathematical function over views; its executable form is proved to
//! return exactly what that function denotes, which yields closure,
//! determinism, cycle detection and the error laws.

use vstd::prelude::*;
use crate::strutil::lex_lt;
use crate::strutil::lex_ge;
use crate::strutil::str_lt;
use crate::strutil::str_eq;
use crate::strutil::is_name_char;
use crate::strutil::is_op_char;

verus! {

/// Failures of dependency resolution.
#[derive(Debug, Clone, PartialEq)]
pub enum DepresError {
    PackageNotFound(String),
    NoSolution(String),
    FlavourMismatch { required: String, system: String },
    CircularDependency(String),
    VersionConstraint(String),
    Io(String),
}

/// Mathematical image of a resolution failure.
pub enum DepresErrorV {
    PackageNotFound(Seq<char>),
    NoSolution(Seq<char>),
    FlavourMismatch { required: Seq<char>, system: Seq<char> },
    CircularDependency(Seq<char>),
    VersionConstraint(Seq<char>),
    Io(Seq<char>),
}

impl View for DepresError {
    type V = DepresErrorV;

    open spec fn view(&self) -> DepresErrorV {
        match self {
            DepresError::PackageNotFound(n) => DepresErrorV::PackageNotFound(n@),
            DepresError::NoSolution(n) => DepresErrorV::NoSolution(n@),
            DepresError::FlavourMismatch { required, system } => DepresErrorV::FlavourMismatch {
                required: required@,
                system: system@,
            },
            DepresError::CircularDependency(n) => DepresErrorV::CircularDependency(n@),
            DepresError::VersionConstraint(n) => DepresErrorV::VersionConstraint(n@),
            DepresError::Io(n) => DepresErrorV::Io(n@),
        }
    }
}

/// Identity of a specific package build.
#[derive(Debug, Clone, PartialEq)]
pub struct PackageId {
    pub name: String,
    pub version: String,
    pub arch: String,
    pub flavour: String,
}

/// Mathematical image of a package identity.
pub struct PackageIdV {
    pub name: Seq<char>,
    pub version: Seq<char>,
    pub arch: Seq<char>,
    pub flavour: Seq<char>,
}

impl View for PackageId {
    type V = PackageIdV;

    open spec fn view(&self) -> PackageIdV {
        PackageIdV { name: self.name@, version: self.version@, arch: self.arch@, flavour: self.flavour@ }
    }
}

impl PackageId {
    /// The display key `name-version-arch`.
    pub fn key(&self) -> (r: String)
        ensures
            r@ == self@.name + "-"@ + self@.version + "-"@ + self@.arch,
    {
        let mut out = self.name.clone();
        out.append("-");
        out.append(self.version.as_str());
        out.append("-");
        out.append(self.arch.as_str());
        out
    }
}

/// A constraint on the version a dependency may resolve to.
#[derive(Debug, Clone, PartialEq)]
pub enum VersionPredicate {
    Any,
    Exact(String),
    GreaterOrEqual(String),
    LessThan(String),
}

/// Mathematical image of a version predicate.
pub enum VersionPredicateV {
    Any,
    Exact(Seq<char>),
    GreaterOrEqual(Seq<char>),
    LessThan(Seq<char>),
}

impl View for VersionPredicate {
    type V = VersionPredicateV;

    open spec fn view(&self) -> VersionPredicateV {
        match self {
            VersionPredicate::Any => VersionPredicateV::Any,
            VersionPredicate::Exact(v) => VersionPredicateV::Exact(v@),
            VersionPredicate::GreaterOrEqual(v) => VersionPredicateV::GreaterOrEqual(v@),
            VersionPredicate::LessThan(v) => VersionPredicateV::LessThan(v@),
        }
    }
}

/// Whether a candidate version satisfies a predicate, versions ordered
/// lexicographically.
pub open spec fn pred_matches(p: VersionPredicateV, candidate: Seq<char>) -> bool {
    match p {
        VersionPredicateV::Any => true,
        VersionPredicateV::Exact(v) => candidate == v,
        VersionPredicateV::GreaterOrEqual(v) => lex_ge(candidate, v),
        VersionPredicateV::LessThan(v) => lex_lt(candidate, v),
    }
}

impl VersionPredicate {
    /// Whether `candidate` satisfies this predicate.
    pub fn matches(&self, candidate: &str) -> (r: bool)
        ensures
            r == pred_matches(self@, candidate@),
    {
        match self {
            VersionPredicate::Any => true,
            VersionPredicate::Exact(v) => str_eq(candidate, v.as_str()),
            VersionPredicate::GreaterOrEqual(v) => !str_lt(candidate, v.as_str()),
            VersionPredicate::LessThan(v) => str_lt(candidate, v.as_str()),
        }
    }
}

/// One dependency edge: a target name and a version predicate.
#[derive(Debug, Clone, PartialEq)]
pub struct Dependency {
    pub name: String,
    pub predicate: VersionPredicate,
}

/// Mathematical image of a dependency edge.
pub struct DependencyV {
    pub name: Seq<char>,
    pub predicate: VersionPredicateV,
}

impl View for Dependency {
    type V = DependencyV;

    open spec fn view(&self) -> DependencyV {
        DependencyV { name: self.name@, predicate: self.predicate@ }
    }
}

impl DeepView for Dependency {
    type V = DependencyV;

    open spec fn deep_view(&self) -> DependencyV {
        self.view()
    }
}

/// Length of the leading run of name characters.
pub open spec fn name_run_len(s: Seq<char>) -> int
    decreases s.len(),
{
    if s.len() == 0 || !is_name_char(s[0]) {
        0
    } else {
        1 + name_run_len(s.drop_first())
    }
}

/// Length of the leading run of operator characters.
pub open spec fn op_run_len(s: Seq<char>) -> int
    decreases s.len(),
{
    if s.len() == 0 || !is_op_char(s[0]) {
        0
    } else {
        1 + op_run_len(s.drop_first())
    }
}

/// `name_run_len` is the unique cut with name characters before it and a
/// non-name character (if anything) at it.
pub proof fn lemma_name_run_len_unique(s: Seq<char>, n: int)
    requires
        0 <= n <= s.len(),
        forall|j: int| 0 <= j < n ==> is_name_char(#[trigger] s[j]),
        n < s.len() ==> !is_name_char(s[n]),
    ensures
        n == name_run_len(s),
    decreases s.len(),
{
    if s.len() != 0 && is_name_char(s[0]) {
        assert(n > 0);
        lemma_name_run_len_unique(s.drop_first(), n - 1);
    }
}

/// `op_run_len` is the unique cut with operator characters before it and
/// a non-operator character (if anything) at it.
pub proof fn lemma_op_run_len_unique(s: Seq<char>, n: int)
    requires
        0 <= n <= s.len(),
        forall|j: int| 0 <= j < n ==> is_op_char(#[trigger] s[j]),
        n < s.len() ==> !is_op_char(s[n]),
    ensures
        n == op_run_len(s),
    decreases s.len(),
{
    if s.len() != 0 && is_op_char(s[0]) {
        assert(n > 0);
        lemma_op_run_len_unique(s.drop_first(), n - 1);
    }
}

/// The predicate denoted by a raw constraint suffix such as `>=1.2`.
pub open spec fn pred_of_str(p: Seq<char>) -> VersionPredicateV {
    if p.len() >= 2 && p[0] == '>' && p[1] == '=' {
        VersionPredicateV::GreaterOrEqual(p.skip(2))
    } else if p.len() >= 1 && p[0] == '<' {
        VersionPredicateV::LessThan(p.skip(1))
    } else if p.len() >= 1 && p[0] == '=' {
        VersionPredicateV::Exact(p.skip(1))
    } else {
        VersionPredicateV::Exact(p)
    }
}

/// The dependency denoted by a raw constraint string such as
/// `glibc>=2.38`: a leading run of name characters, an optional run of
/// operator characters, and the version.  A string that does not start
/// with a name character stands for itself with no constraint; so does a
/// string with no version part.
pub open spec fn dep_parse_spec(s: Seq<char>) -> DependencyV {
    let n = name_run_len(s);
    if n == 0 {
        DependencyV { name: s, predicate: VersionPredicateV::Any }
    } else {
        let rest = s.skip(n);
        let m = op_run_len(rest);
        if rest.len() == m {
            DependencyV { name: s.subrange(0, n), predicate: VersionPredicateV::Any }
        } else {
            DependencyV { name: s.subrange(0, n), predicate: pred_of_str(rest) }
        }
    }
}

fn name_char(c: char) -> (b: bool)
    ensures
        b == is_name_char(c),
{
    ('a' <= c && c <= 'z') || ('A' <= c && c <= 'Z') || ('0' <= c && c <= '9')
        || c == '.' || c == '_' || c == '-'
}

fn op_char(c: char) -> (b: bool)
    ensures
        b == is_op_char(c),
{
    c == '<' || c == '>' || c == '=' || c == '!'
}

impl Dependency {
    /// Parse a raw constraint string.
    pub fn parse(s: &str) -> (d: Dependency)
        ensures
            d@ == dep_parse_spec(s@),
    {
        let len = s.unicode_len();
        let mut n: usize = 0;
        while n < len
            invariant
                n <= len,
                len == s@.len(),
                forall|j: int| 0 <= j < n ==> is_name_char(#[trigger] s@[j]),
            ensures
                n <= len,
                forall|j: int| 0 <= j < n ==> is_name_char(#[trigger] s@[j]),
                n < len ==> !is_name_char(s@[n as int]),
            decreases len - n,
        {
            if !name_char(s.get_char(n)) {
                break;
            }
            n = n + 1;
        }
        proof {
            lemma_name_run_len_unique(s@, n as int);
        }
        if n == 0 {
            return Dependency { name: s.to_owned(), predicate: VersionPredicate::Any };
        }
        let ghost rest = s@.skip(n as int);
        let mut m: usize = n;
        while m < len
            invariant
                n <= m <= len,
                len == s@.len(),
                forall|j: int| n <= j < m ==> is_op_char(#[trigger] s@[j]),
            ensures
                n <= m <= len,
                forall|j: int| n <= j < m ==> is_op_char(#[trigger] s@[j]),
                m < len ==> !is_op_char(s@[m as int]),
            decreases len - m,
        {
            if !op_char(s.get_char(m)) {
                break;
            }
            m = m + 1;
        }
        proof {
            assert forall|j: int| 0 <= j < m - n implies is_op_char(#[trigger] rest[j]) by {
                assert(rest[j] == s@[j + n]);
            }
            if (m - n) < rest.len() {
                assert(rest[m - n] == s@[m as int]);
            }
            lemma_op_run_len_unique(rest, m as int - n as int);
        }
        let name = s.substring_char(0, n).to_owned();
        if m == len {
            proof {
                assert(rest.len() == m - n);
            }
            return Dependency { name, predicate: VersionPredicate::Any };
        }
        let two_ge = m - n >= 2 && s.get_char(n) == '>' && s.get_char(n + 1) == '=';
        proof {
            if n < len {
                assert(rest[0] == s@[n as int]);
            }
            if n + 1 < len {
                assert(rest[1] == s@[n as int + 1]);
            }
        }
        if two_ge {
            let v = s.substring_char(n + 2, len).to_owned();
            proof {
                assert(rest.skip(2) =~= s@.skip(n as int + 2));
                assert(s@.subrange(n as int + 2, len as int) =~= s@.skip(n as int + 2));
            }
            return Dependency { name, predicate: VersionPredicate::GreaterOrEqual(v) };
        }
        if m > n && s.get_char(n) == '<' {
            let v = s.substring_char(n + 1, len).to_owned();
            proof {
                assert(rest.skip(1) =~= s@.skip(n as int + 1));
                assert(s@.subrange(n as int + 1, len as int) =~= s@.skip(n as int + 1));
                assert(!(rest.len() >= 2 && rest[0] == '>' && rest[1] == '='));
            }
            return Dependency { name, predicate: VersionPredicate::LessThan(v) };
        }
        if m > n && s.get_char(n) == '=' {
            let v = s.substring_char(n + 1, len).to_owned();
            proof {
                assert(rest.skip(1) =~= s@.skip(n as int + 1));
                assert(s@.subrange(n as int + 1, len as int) =~= s@.skip(n as int + 1));
            }
            return Dependency { name, predicate: VersionPredicate::Exact(v) };
        }
        let v = s.substring_char(n, len).to_owned();
        proof {
            assert(s@.subrange(n as int, len as int) =~= rest);
            if m > n {
                assert(rest[0] == s@[n as int]);
                assert(rest[0] == '>' || rest[0] == '!');
                if rest.len() >= 2 && rest[0] == '>' && rest[1] == '=' {
                    assert(two_ge);
                }
            }
        }
        Dependency { name, predicate: VersionPredicate::Exact(v) }
    }

    /// An identical copy.
    pub fn duplicate(&self) -> (r: Self)
        ensures
            r@ == self@,
    {
        let predicate = match &self.predicate {
            VersionPredicate::Any => VersionPredicate::Any,
            VersionPredicate::Exact(v) => VersionPredicate::Exact(v.clone()),
            VersionPredicate::GreaterOrEqual(v) => VersionPredicate::GreaterOrEqual(v.clone()),
            VersionPredicate::LessThan(v) => VersionPredicate::LessThan(v.clone()),
        };
        Dependency { name: self.name.clone(), predicate }
    }
}

/// A package instance known to the universe: identity, download URL,
/// expected digest, artifact file name, and dependency edges.
#[derive(Debug, Clone, PartialEq)]
pub struct PackageMetadata {
    pub id: PackageId,
    pub url: String,
    pub sha256: String,
    pub filename: String,
    pub depends: Vec<Dependency>,
}

/// Mathematical image of a known package instance.
pub struct MetaV {
    pub id: PackageIdV,
    pub url: Seq<char>,
    pub sha256: Seq<char>,
    pub filename: Seq<char>,
    pub depends: Seq<DependencyV>,
}

impl View for PackageMetadata {
    type V = MetaV;

    open spec fn view(&self) -> MetaV {
        MetaV {
            id: self.id@,
            url: self.url@,
            sha256: self.sha256@,
            filename: self.filename@,
            depends: self.depends.deep_view(),
        }
    }
}

impl DeepView for PackageMetadata {
    type V = MetaV;

    open spec fn deep_view(&self) -> MetaV {
        self.view()
    }
}

impl PackageId {
    /// An identical copy.
    pub fn duplicate(&self) -> (r: Self)
        ensures
            r@ == self@,
    {
        PackageId {
            name: self.name.clone(),
            version: self.version.clone(),
            arch: self.arch.clone(),
            flavour: self.flavour.clone(),
        }
    }
}

impl PackageMetadata {
    /// An identical copy.
    pub fn duplicate(&self) -> (r: Self)
        ensures
            r@ == self@,
    {
        let mut depends: Vec<Dependency> = Vec::new();
        let mut i: usize = 0;
        proof {
            assert(depends.deep_view() =~= self.depends.deep_view().subrange(0, 0));
        }
        while i < self.depends.len()
            invariant
                i <= self.depends@.len(),
                depends.deep_view() == self.depends.deep_view().subrange(0, i as int),
            decreases self.depends@.len() - i,
        {
            let d = self.depends[i].duplicate();
            let ghost dv0 = depends.deep_view();
            depends.push(d);
            proof {
                assert(depends.deep_view() =~= dv0.push(d@));
                assert(dv0.push(d@) =~= self.depends.deep_view().subrange(0, i as int + 1));
            }
            i = i + 1;
        }
        proof {
            assert(depends.deep_view() =~= self.depends.deep_view());
            assert(depends.deep_view() == self.depends.deep_view());
        }
        PackageMetadata {
            id: self.id.duplicate(),
            url: self.url.clone(),
            sha256: self.sha256.clone(),
            filename: self.filename.clone(),
            depends,
        }
    }
}

/// Whether an entry sits under the `(name, arch, flavour)` key.
pub open spec fn key_matches(m: MetaV, name: Seq<char>, arch: Seq<char>, flavour: Seq<char>) -> bool {
    m.id.name == name && m.id.arch == arch && m.id.flavour == flavour
}

/// The entries under a key, in universe order (repository precedence).
pub open spec fn candidates(uv: Seq<MetaV>, name: Seq<char>, arch: Seq<char>, flavour: Seq<char>) -> Seq<MetaV> {
    uv.filter(|m: MetaV| key_matches(m, name, arch, flavour))
}

/// The chosen candidate: highest version by lexicographic order, the
/// earliest such on ties (repository precedence).
pub open spec fn best_of(s: Seq<MetaV>) -> Option<MetaV>
    decreases s.len(),
{
    if s.len() == 0 {
        None
    } else {
        match best_of(s.drop_last()) {
            None => Some(s.last()),
            Some(b) => if lex_lt(b.id.version, s.last().id.version) {
                Some(s.last())
            } else {
                Some(b)
            },
        }
    }
}

/// The chosen candidate is one of the candidates.
pub proof fn lemma_best_of_contains(s: Seq<MetaV>)
    ensures
        best_of(s) matches Some(b) ==> s.contains(b),
    decreases s.len(),
{
    if s.len() != 0 {
        lemma_best_of_contains(s.drop_last());
        match best_of(s) {
            Some(b) => {
                if b == s.last() {
                    assert(s[s.len() - 1] == b);
                } else {
                    assert(s.drop_last().contains(b));
                    let i = choose|i: int| 0 <= i < s.drop_last().len() && s.drop_last()[i] == b;
                    assert(s[i] == b);
                }
            }
            None => {}
        }
    }
}

/// The names the universe knows.
pub open spec fn universe_names(uv: Seq<MetaV>) -> Set<Seq<char>> {
    uv.map_values(|m: MetaV| m.id.name).to_set()
}

/// The name set is finite, and a name with candidates is in it.
pub proof fn lemma_universe_names(uv: Seq<MetaV>, name: Seq<char>, arch: Seq<char>, flavour: Seq<char>)
    ensures
        universe_names(uv).finite(),
        candidates(uv, name, arch, flavour).len() > 0 ==> universe_names(uv).contains(name),
{
    broadcast use vstd::seq_lib::seq_to_set_is_finite;
    broadcast use vstd::set::group_set_axioms;

    let mapped = uv.map_values(|m: MetaV| m.id.name);
    let cands = candidates(uv, name, arch, flavour);
    if cands.len() > 0 {
        broadcast use vstd::seq_lib::group_filter_ensures;

        let c = cands[0];
        let p = |m: MetaV| key_matches(m, name, arch, flavour);
        assert(uv.filter(p).contains(c));
        uv.lemma_filter_contains_rev(p, c);
        assert(key_matches(c, name, arch, flavour));
        let i = choose|i: int| 0 <= i < uv.len() && uv[i] == c;
        assert(mapped[i] == name);
        assert(mapped.contains(name));
    }
}

/// The in-memory index of all packages the repositories offer.
#[derive(Debug)]
pub struct PackageUniverse {
    entries: Vec<PackageMetadata>,
}

impl View for PackageUniverse {
    type V = Seq<MetaV>;

    closed spec fn view(&self) -> Seq<MetaV> {
        self.entries.deep_view()
    }
}

impl PackageUniverse {
    /// An empty universe.
    pub fn new() -> (u: Self)
        ensures
            u@ == Seq::<MetaV>::empty(),
    {
        let u = PackageUniverse { entries: Vec::new() };
        proof {
            assert(u@ =~= Seq::<MetaV>::empty());
        }
        u
    }

    /// Append one entry; later entries rank below earlier ones on
    /// version ties.
    pub fn add_entry(&mut self, m: PackageMetadata)
        ensures
            final(self)@ == old(self)@.push(m@),
    {
        self.entries.push(m);
        proof {
            assert(self@ =~= old(self)@.push(self.entries@.last()@));
        }
    }

    /// The entries, in precedence order.
    pub fn entries(&self) -> (r: &Vec<PackageMetadata>)
        ensures
            r.deep_view() == self@,
    {
        &self.entries
    }

    /// The selected candidate under a key, if the key is known.
    fn best_candidate(&self, name: &str, flavour: &str, arch: &str) -> (r: Option<PackageMetadata>)
        ensures
            match r {
                Some(m) => best_of(candidates(self@, name@, arch@, flavour@)) == Some(m@),
                None => candidates(self@, name@, arch@, flavour@).len() == 0,
            },
    {
        broadcast use vstd::seq_lib::group_filter_ensures;

        let n = self.entries.len();
        let mut best: Option<PackageMetadata> = None;
        let mut i: usize = 0;
        proof {
            assert(self@.subrange(0, 0) =~= Seq::<MetaV>::empty());
            assert(candidates(self@.subrange(0, 0), name@, arch@, flavour@) =~= Seq::<MetaV>::empty());
        }
        while i < n
            invariant
                i <= n,
                n == self@.len(),
                n == self.entries@.len(),
                match best {
                    Some(b) => best_of(candidates(self@.subrange(0, i as int), name@, arch@, flavour@))
                        == Some(b@),
                    None => candidates(self@.subrange(0, i as int), name@, arch@, flavour@).len() == 0,
                },
            decreases n - i,
        {
            let e = &self.entries[i];
            let ghost pre = self@.subrange(0, i as int);
            let ghost cur = self@.subrange(0, i as int + 1);
            proof {
                assert(cur.drop_last() =~= pre);
                assert(cur.last() == self@[i as int]);
                assert(self@[i as int] == e@);
            }
            let is_key = str_eq(e.id.name.as_str(), name)
                && str_eq(e.id.arch.as_str(), arch)
                && str_eq(e.id.flavour.as_str(), flavour);
            proof {
                let p = |m: MetaV| key_matches(m, name@, arch@, flavour@);
                reveal_with_fuel(Seq::filter, 2);
                assert(candidates(cur, name@, arch@, flavour@) == if p(e@) {
                    candidates(pre, name@, arch@, flavour@).push(e@)
                } else {
                    candidates(pre, name@, arch@, flavour@)
                });
            }
            if is_key {
                let ghost cc = candidates(cur, name@, arch@, flavour@);
                proof {
                    assert(cc.drop_last() =~= candidates(pre, name@, arch@, flavour@));
                    assert(cc.last() == e@);
                }
                match &best {
                    None => {
                        best = Some(e.duplicate());
                    }
                    Some(b) => {
                        if str_lt(b.id.version.as_str(), e.id.version.as_str()) {
                            best = Some(e.duplicate());
                        }
                    }
                }
            }
            i = i + 1;
        }
        proof {
            assert(self@.subrange(0, n as int) =~= self@);
        }
        best
    }
}

/// No two selections share a name.
pub open spec fn sel_unique(s: Seq<PackageMetadata>) -> bool {
    forall|i: int, j: int| 0 <= i < j < s.len()
        ==> (#[trigger] s[i])@.id.name != (#[trigger] s[j])@.id.name
}

/// The selection map folded from a selection sequence, later entries
/// winning.
pub open spec fn sel_map(s: Seq<PackageMetadata>) -> Map<Seq<char>, MetaV>
    decreases s.len(),
{
    if s.len() == 0 {
        Map::empty()
    } else {
        sel_map(s.drop_last()).insert(s.last()@.id.name, s.last()@)
    }
}

/// A key is in the folded selection map exactly when some selection
/// carries it, and maps to that selection when names are unique.
pub proof fn lemma_sel_map_index(s: Seq<PackageMetadata>, k: Seq<char>)
    ensures
        sel_map(s).contains_key(k) <==> exists|i: int|
            0 <= i < s.len() && (#[trigger] s[i])@.id.name == k,
        sel_unique(s) ==> forall|i: int|
            0 <= i < s.len() && (#[trigger] s[i])@.id.name == k ==> sel_map(s)[k] == s[i]@,
    decreases s.len(),
{
    if s.len() != 0 {
        lemma_sel_map_index(s.drop_last(), k);
        let last = s.len() - 1;
        assert forall|i: int| 0 <= i < s.len() && (#[trigger] s[i])@.id.name == k implies
            sel_map(s).contains_key(k) by {
            if i < last {
                assert(s.drop_last()[i] == s[i]);
            }
        }
        if sel_map(s).contains_key(k) && s[last]@.id.name != k {
            let i = choose|i: int| 0 <= i < s.drop_last().len()
                && (#[trigger] s.drop_last()[i])@.id.name == k;
            assert(s[i] == s.drop_last()[i]);
        }
        if sel_unique(s) {
            assert(sel_unique(s.drop_last())) by {
                assert forall|i: int, j: int| 0 <= i < j < s.drop_last().len() implies
                    (#[trigger] s.drop_last()[i])@.id.name
                        != (#[trigger] s.drop_last()[j])@.id.name by {
                    assert(s.drop_last()[i] == s[i]);
                    assert(s.drop_last()[j] == s[j]);
                }
            }
            assert forall|i: int| 0 <= i < s.len() && (#[trigger] s[i])@.id.name == k implies
                sel_map(s)[k] == s[i]@ by {
                if i < last {
                    assert(s.drop_last()[i] == s[i]);
                    assert(s[i]@.id.name != s[last]@.id.name);
                }
            }
        }
    }
}

/// The set of names on the current recursion path.
pub open spec fn path_of(v: Seq<String>) -> Set<Seq<char>> {
    v.map_values(|s: String| s@).to_set()
}

/// Path membership is membership of some path element's view.
pub proof fn lemma_path_of_contains(v: Seq<String>, k: Seq<char>)
    ensures
        path_of(v).contains(k) <==> exists|i: int| 0 <= i < v.len() && (#[trigger] v[i])@ == k,
{
    broadcast use vstd::set::group_set_axioms;

    let mapped = v.map_values(|s: String| s@);
    if path_of(v).contains(k) {
        assert(mapped.contains(k));
        let i = choose|i: int| 0 <= i < mapped.len() && mapped[i] == k;
        assert(v[i]@ == k);
    }
    if exists|i: int| 0 <= i < v.len() && (#[trigger] v[i])@ == k {
        let i = choose|i: int| 0 <= i < v.len() && (#[trigger] v[i])@ == k;
        assert(mapped[i] == k);
        assert(mapped.contains(k));
    }
}

/// Pushing a name inserts its view into the path set.
pub proof fn lemma_path_of_push(v: Seq<String>, s: String)
    ensures
        path_of(v.push(s)) == path_of(v).insert(s@),
{
    broadcast use vstd::set::group_set_axioms;

    assert forall|k: Seq<char>| #[trigger] path_of(v.push(s)).contains(k)
        implies path_of(v).insert(s@).contains(k) by {
        lemma_path_of_contains(v.push(s), k);
        let i = choose|i: int| 0 <= i < v.push(s).len() && (#[trigger] v.push(s)[i])@ == k;
        if i < v.len() {
            assert(v[i] == v.push(s)[i]);
            lemma_path_of_contains(v, k);
        }
    }
    assert forall|k: Seq<char>| #[trigger] path_of(v).insert(s@).contains(k)
        implies path_of(v.push(s)).contains(k) by {
        lemma_path_of_contains(v.push(s), k);
        if k == s@ {
            assert(v.push(s)[v.len() as int]@ == k);
        } else {
            lemma_path_of_contains(v, k);
            let i = choose|i: int| 0 <= i < v.len() && (#[trigger] v[i])@ == k;
            assert(v.push(s)[i]@ == k);
        }
    }
    assert(path_of(v.push(s)) =~= path_of(v).insert(s@));
}

/// The path of an empty sequence is the empty set.
pub proof fn lemma_path_of_empty()
    ensures
        path_of(Seq::<String>::empty()) == Set::<Seq<char>>::empty(),
{
    broadcast use vstd::set::group_set_axioms;

    assert forall|k: Seq<char>| !(#[trigger] path_of(Seq::<String>::empty()).contains(k)) by {
        lemma_path_of_contains(Seq::<String>::empty(), k);
    }
    assert(path_of(Seq::<String>::empty()) =~= Set::<Seq<char>>::empty());
}

/// The denotation of resolving one name: fail on a path revisit, a
/// missing key or a flavour mismatch; otherwise resolve the chosen
/// candidate's dependencies depth-first and then record the selection.
pub open spec fn rp_spec(
    uv: Seq<MetaV>,
    name: Seq<char>,
    flavour: Seq<char>,
    arch: Seq<char>,
    sel: Map<Seq<char>, MetaV>,
    path: Set<Seq<char>>,
) -> Result<Map<Seq<char>, MetaV>, DepresErrorV>
    decreases universe_names(uv).difference(path).len(), 0int, 0int,
    when path.finite()
{
    if path.contains(name) {
        Err(DepresErrorV::CircularDependency(name))
    } else {
        let cands = candidates(uv, name, arch, flavour);
        if cands.len() == 0 {
            Err(DepresErrorV::PackageNotFound(name))
        } else {
            match best_of(cands) {
                None => Err(DepresErrorV::PackageNotFound(name)),
                Some(best) => if best.id.flavour != flavour {
                    Err(DepresErrorV::FlavourMismatch { required: best.id.flavour, system: flavour })
                } else {
                    proof {
                        lemma_universe_names(uv, name, arch, flavour);
                        universe_names(uv).lemma_set_insert_diff_decreases(path, name);
                    }
                    match rp_deps(uv, best.depends, flavour, arch, sel, path.insert(name)) {
                        Err(e) => Err(e),
                        Ok(sel2) => Ok(sel2.insert(name, best)),
                    }
                },
            }
        }
    }
}

/// The denotation of resolving a dependency list in order: resolve each
/// target not yet selected, then require the selected candidate to
/// satisfy the edge's version predicate.
pub open spec fn rp_deps(
    uv: Seq<MetaV>,
    deps: Seq<DependencyV>,
    flavour: Seq<char>,
    arch: Seq<char>,
    sel: Map<Seq<char>, MetaV>,
    path: Set<Seq<char>>,
) -> Result<Map<Seq<char>, MetaV>, DepresErrorV>
    decreases universe_names(uv).difference(path).len(), 1int, deps.len(),
    when path.finite()
{
    if deps.len() == 0 {
        Ok(sel)
    } else {
        let d = deps[0];
        let after = if sel.contains_key(d.name) {
            Ok(sel)
        } else {
            rp_spec(uv, d.name, flavour, arch, sel, path)
        };
        match after {
            Err(e) => Err(e),
            Ok(sel2) => if !pred_matches(d.predicate, sel2[d.name].id.version) {
                Err(DepresErrorV::VersionConstraint(d.name))
            } else {
                rp_deps(uv, deps.drop_first(), flavour, arch, sel2, path)
            },
        }
    }
}

/// The denotation of resolving a root list in order, each root starting
/// from an empty path.
pub open spec fn resolve_roots_spec(
    uv: Seq<MetaV>,
    roots: Seq<Seq<char>>,
    flavour: Seq<char>,
    arch: Seq<char>,
    sel: Map<Seq<char>, MetaV>,
) -> Result<Map<Seq<char>, MetaV>, DepresErrorV>
    decreases roots.len(),
{
    if roots.len() == 0 {
        Ok(sel)
    } else {
        match rp_spec(uv, roots[0], flavour, arch, sel, Set::empty()) {
            Err(e) => Err(e),
            Ok(s2) => resolve_roots_spec(uv, roots.drop_first(), flavour, arch, s2),
        }
    }
}

/// Removing the selection at one index removes exactly its key from the
/// folded selection map, when names are unique.
proof fn lemma_sel_map_remove(s: Seq<PackageMetadata>, i: int)
    requires
        sel_unique(s),
        0 <= i < s.len(),
    ensures
        sel_map(s.remove(i)) == sel_map(s).remove(s[i]@.id.name),
    decreases s.len(),
{
    let last = s.len() - 1;
    let k = s[i]@.id.name;
    if i == last {
        assert(s.remove(i) =~= s.drop_last());
        lemma_sel_map_index(s.drop_last(), k);
        assert(!sel_map(s.drop_last()).contains_key(k)) by {
            if sel_map(s.drop_last()).contains_key(k) {
                let j = choose|j: int| 0 <= j < s.drop_last().len()
                    && (#[trigger] s.drop_last()[j])@.id.name == k;
                assert(s.drop_last()[j] == s[j]);
            }
        }
        assert(sel_map(s).remove(k) =~= sel_map(s.drop_last()));
    } else {
        assert(sel_unique(s.drop_last())) by {
            assert forall|a: int, b: int| 0 <= a < b < s.drop_last().len() implies
                (#[trigger] s.drop_last()[a])@.id.name != (#[trigger] s.drop_last()[b])@.id.name by {
                assert(s.drop_last()[a] == s[a]);
                assert(s.drop_last()[b] == s[b]);
            }
        }
        assert(s.drop_last()[i] == s[i]);
        lemma_sel_map_remove(s.drop_last(), i);
        assert(s.remove(i).drop_last() =~= s.drop_last().remove(i));
        assert(s.remove(i).last() == s.last());
        assert(s.remove(i).len() == s.len() - 1);
        assert(sel_map(s.remove(i)) ==
            sel_map(s.drop_last().remove(i)).insert(s.last()@.id.name, s.last()@));
        assert(k != s.last()@.id.name);
        assert(sel_map(s.drop_last()).remove(k).insert(s.last()@.id.name, s.last()@) =~=
            sel_map(s.drop_last()).insert(s.last()@.id.name, s.last()@).remove(k));
    }
}

/// Index of the selection named `name`, if any.
fn find_sel(selected: &Vec<PackageMetadata>, name: &str) -> (r: Option<usize>)
    ensures
        match r {
            Some(i) => i < selected@.len() && selected@[i as int]@.id.name == name@,
            None => forall|i: int| 0 <= i < selected@.len()
                ==> (#[trigger] selected@[i])@.id.name != name@,
        },
{
    let n = selected.len();
    let mut i: usize = 0;
    while i < n
        invariant
            i <= n,
            n == selected@.len(),
            forall|j: int| 0 <= j < i ==> (#[trigger] selected@[j])@.id.name != name@,
        decreases n - i,
    {
        if str_eq(selected[i].id.name.as_str(), name) {
            return Some(i);
        }
        i = i + 1;
    }
    None
}

/// Upsert a selection by name.
fn insert_sel(selected: &mut Vec<PackageMetadata>, m: PackageMetadata)
    requires
        sel_unique(old(selected)@),
    ensures
        sel_unique(final(selected)@),
        sel_map(final(selected)@) == sel_map(old(selected)@).insert(m@.id.name, m@),
{
    let ghost name = m@.id.name;
    let ghost s0 = selected@;
    let found = find_sel(selected, m.id.name.as_str());
    match found {
        Some(i) => {
            proof {
                lemma_sel_map_remove(s0, i as int);
            }
            selected.remove(i);
            let ghost s1 = selected@;
            proof {
                assert(s1 =~= s0.remove(i as int));
                assert forall|a: int, b: int| 0 <= a < b < s1.len() implies
                    (#[trigger] s1[a])@.id.name != (#[trigger] s1[b])@.id.name by {
                    let a0 = if a < i { a } else { a + 1 };
                    let b0 = if b < i { b } else { b + 1 };
                    assert(s1[a] == s0[a0]);
                    assert(s1[b] == s0[b0]);
                }
            }
            selected.push(m);
            let ghost s2 = selected@;
            proof {
                assert(s2.drop_last() =~= s1);
                assert forall|a: int, b: int| 0 <= a < b < s2.len() implies
                    (#[trigger] s2[a])@.id.name != (#[trigger] s2[b])@.id.name by {
                    assert(s2[a] == s1[a]);
                    if b < s2.len() - 1 {
                        assert(s2[b] == s1[b]);
                    } else {
                        let a0 = if a < i { a } else { a + 1 };
                        assert(s1[a] == s0[a0]);
                    }
                }
                assert(sel_map(s2) == sel_map(s1).insert(name, m@));
                assert(sel_map(s1) == sel_map(s0).remove(name));
                assert(sel_map(s0).remove(name).insert(name, m@) =~=
                    sel_map(s0).insert(name, m@));
            }
        }
        None => {
            selected.push(m);
            let ghost s2 = selected@;
            proof {
                assert(s2.drop_last() =~= s0);
                assert forall|a: int, b: int| 0 <= a < b < s2.len() implies
                    (#[trigger] s2[a])@.id.name != (#[trigger] s2[b])@.id.name by {
                    assert(s2[a] == s0[a]);
                    if b < s2.len() - 1 {
                        assert(s2[b] == s0[b]);
                    }
                }
                assert(sel_map(s2) == sel_map(s0).insert(name, m@));
            }
        }
    }
}

/// Whether a name lies on the current recursion path.
fn contains_visited(visited: &Vec<String>, name: &str) -> (r: bool)
    ensures
        r == path_of(visited@).contains(name@),
{
    proof {
        lemma_path_of_contains(visited@, name@);
    }
    let n = visited.len();
    let mut i: usize = 0;
    while i < n
        invariant
            i <= n,
            n == visited@.len(),
            forall|j: int| 0 <= j < i ==> (#[trigger] visited@[j])@ != name@,
        decreases n - i,
    {
        if str_eq(visited[i].as_str(), name) {
            proof {
                assert((visited@[i as int])@ == name@);
                assert(exists|j: int| 0 <= j < visited@.len() && (#[trigger] visited@[j])@ == name@);
                lemma_path_of_contains(visited@, name@);
            }
            return true;
        }
        i = i + 1;
    }
    false
}

/// A successful resolution of a name records that name.
pub proof fn lemma_rp_spec_records_name(
    uv: Seq<MetaV>,
    name: Seq<char>,
    flavour: Seq<char>,
    arch: Seq<char>,
    sel: Map<Seq<char>, MetaV>,
    path: Set<Seq<char>>,
)
    requires
        path.finite(),
        rp_spec(uv, name, flavour, arch, sel, path) is Ok,
    ensures
        rp_spec(uv, name, flavour, arch, sel, path) matches Ok(m) && m.contains_key(name),
{
}

/// The resolver's output: the selected package identities together with
/// the full selected entries, which carry each package's download URL
/// and expected digest.  Viewed as the selection map.
#[derive(Debug)]
pub struct ResolutionSolution {
    pub packages: Vec<PackageId>,
    pub selections: Vec<PackageMetadata>,
}

impl View for ResolutionSolution {
    type V = Map<Seq<char>, MetaV>;

    open spec fn view(&self) -> Map<Seq<char>, MetaV> {
        sel_map(self.selections@)
    }
}

impl ResolutionSolution {
    /// Selections carry distinct names and `packages` lists their
    /// identities in the same order.
    pub open spec fn wf(&self) -> bool {
        &&& sel_unique(self.selections@)
        &&& self.packages@.len() == self.selections@.len()
        &&& forall|i: int| 0 <= i < self.selections@.len()
            ==> (#[trigger] self.packages@[i])@ == self.selections@[i]@.id
    }

    /// The download URL recorded for a selected name.
    pub fn url_of(&self, name: &str) -> (r: Option<&String>)
        requires
            self.wf(),
        ensures
            match r {
                Some(u) => self@.contains_key(name@) && u@ == self@[name@].url,
                None => !self@.contains_key(name@),
            },
    {
        proof {
            lemma_sel_map_index(self.selections@, name@);
        }
        match find_sel(&self.selections, name) {
            Some(i) => {
                proof {
                    assert(exists|j: int| 0 <= j < self.selections@.len()
                        && (#[trigger] self.selections@[j])@.id.name == name@);
                }
                Some(&self.selections[i].url)
            }
            None => None,
        }
    }

    /// The expected digest recorded for a selected name.
    pub fn sha256_of(&self, name: &str) -> (r: Option<&String>)
        requires
            self.wf(),
        ensures
            match r {
                Some(h) => self@.contains_key(name@) && h@ == self@[name@].sha256,
                None => !self@.contains_key(name@),
            },
    {
        proof {
            lemma_sel_map_index(self.selections@, name@);
        }
        match find_sel(&self.selections, name) {
            Some(i) => {
                proof {
                    assert(exists|j: int| 0 <= j < self.selections@.len()
                        && (#[trigger] self.selections@[j])@.id.name == name@);
                }
                Some(&self.selections[i].sha256)
            }
            None => None,
        }
    }
}

impl PackageUniverse {
    /// Resolve one name depth-first, exactly as `rp_spec` denotes.
    #[verifier::loop_isolation(false)]
    fn resolve_package(
        &self,
        name: &str,
        flavour: &str,
        arch: &str,
        selected: &mut Vec<PackageMetadata>,
        visited: &mut Vec<String>,
    ) -> (r: Result<(), DepresError>)
        requires
            sel_unique(old(selected)@),
        ensures
            sel_unique(final(selected)@),
            match r {
                Ok(()) => ({
                    &&& rp_spec(self@, name@, flavour@, arch@, sel_map(old(selected)@),
                        path_of(old(visited)@))
                        == Ok::<Map<Seq<char>, MetaV>, DepresErrorV>(sel_map(final(selected)@))
                    &&& final(visited)@ == old(visited)@
                }),
                Err(e) => rp_spec(self@, name@, flavour@, arch@, sel_map(old(selected)@),
                    path_of(old(visited)@))
                    == Err::<Map<Seq<char>, MetaV>, DepresErrorV>(e@),
            },
        decreases universe_names(self@).difference(path_of(old(visited)@)).len(),
    {
        broadcast use vstd::seq_lib::seq_to_set_is_finite;

        let ghost uvv = self@;
        let ghost sel0 = sel_map(selected@);
        let ghost path0 = path_of(visited@);
        proof {
            assert(path0.finite());
        }
        if contains_visited(visited, name) {
            proof {
                assert(rp_spec(uvv, name@, flavour@, arch@, sel0, path0)
                    == Err::<Map<Seq<char>, MetaV>, DepresErrorV>(
                        DepresErrorV::CircularDependency(name@)));
            }
            return Err(DepresError::CircularDependency(name.to_owned()));
        }
        let ghost cands = candidates(uvv, name@, arch@, flavour@);
        let best = match self.best_candidate(name, flavour, arch) {
            None => {
                proof {
                    assert(rp_spec(uvv, name@, flavour@, arch@, sel0, path0)
                        == Err::<Map<Seq<char>, MetaV>, DepresErrorV>(
                            DepresErrorV::PackageNotFound(name@)));
                }
                return Err(DepresError::PackageNotFound(name.to_owned()));
            }
            Some(b) => b,
        };
        let ghost bestv = best@;
        proof {
            assert(cands.len() > 0);
            lemma_best_of_contains(cands);
            assert(cands.contains(bestv));
            let ci = choose|ci: int| 0 <= ci < cands.len() && cands[ci] == bestv;
            broadcast use vstd::seq_lib::group_filter_ensures;

            assert(key_matches(cands[ci], name@, arch@, flavour@));
            assert(bestv.id.name == name@);
        }
        if !str_eq(best.id.flavour.as_str(), flavour) {
            proof {
                assert(rp_spec(uvv, name@, flavour@, arch@, sel0, path0)
                    == Err::<Map<Seq<char>, MetaV>, DepresErrorV>(
                        DepresErrorV::FlavourMismatch {
                            required: best@.id.flavour,
                            system: flavour@,
                        }));
            }
            return Err(DepresError::FlavourMismatch {
                required: best.id.flavour.clone(),
                system: flavour.to_owned(),
            });
        }
        let ghost v0 = visited@;
        visited.push(name.to_owned());
        let ghost v1 = visited@;
        let ghost path1 = path_of(v1);
        proof {
            lemma_path_of_push(v0, v1.last());
            assert(v1.drop_last() =~= v0);
            assert(path1 == path0.insert(name@));
            assert(path1.finite());
            lemma_universe_names(uvv, name@, arch@, flavour@);
            universe_names(uvv).lemma_set_insert_diff_decreases(path0, name@);
        }
        let ghost depsv = best@.depends;
        let deps_len = best.depends.len();
        let mut i: usize = 0;
        proof {
            assert(depsv.skip(0) =~= depsv);
        }
        while i < deps_len
            invariant
                i <= deps_len,
                deps_len == best.depends@.len(),
                depsv == best@.depends,
                sel_unique(selected@),
                visited@ == v1,
                path1 == path_of(v1),
                path1.finite(),
                path1 == path0.insert(name@),
                uvv == self@,
                universe_names(uvv).difference(path1).len()
                    < universe_names(uvv).difference(path0).len(),
                rp_deps(uvv, depsv.skip(i as int), flavour@, arch@, sel_map(selected@), path1)
                    == rp_deps(uvv, depsv, flavour@, arch@, sel0, path1),
            decreases deps_len - i,
        {
            let ghost selc = sel_map(selected@);
            let ghost d = depsv[i as int];
            proof {
                assert(depsv.skip(i as int)[0] == d);
                assert(depsv.skip(i as int).drop_first() =~= depsv.skip(i as int + 1));
                assert(best.depends@[i as int]@ == d);
                lemma_sel_map_index(selected@, d.name);
            }
            let dep_name = best.depends[i].name.clone();
            let sel_idx: usize;
            match find_sel(selected, dep_name.as_str()) {
                Some(j) => {
                    proof {
                        assert(exists|q: int| 0 <= q < selected@.len()
                            && (#[trigger] selected@[q])@.id.name == d.name);
                        assert(selc.contains_key(d.name));
                    }
                    sel_idx = j;
                }
                None => {
                    proof {
                        assert(!selc.contains_key(d.name));
                    }
                    let rr = self.resolve_package(
                        dep_name.as_str(), flavour, arch, selected, visited);
                    match rr {
                        Err(e) => {
                            proof {
                                assert(rp_deps(uvv, depsv.skip(i as int), flavour@, arch@, selc,
                                    path1)
                                    == Err::<Map<Seq<char>, MetaV>, DepresErrorV>(e@));
                                assert(rp_spec(uvv, name@, flavour@, arch@, sel0, path0)
                                    == Err::<Map<Seq<char>, MetaV>, DepresErrorV>(e@));
                            }
                            return Err(e);
                        }
                        Ok(()) => {
                            proof {
                                lemma_rp_spec_records_name(uvv, d.name, flavour@, arch@, selc,
                                    path1);
                                lemma_sel_map_index(selected@, d.name);
                            }
                        }
                    }
                    match find_sel(selected, dep_name.as_str()) {
                        Some(j) => {
                            sel_idx = j;
                        }
                        None => {
                            proof {
                                assert(false);
                            }
                            sel_idx = 0;
                        }
                    }
                }
            }
            let ghost selc2 = sel_map(selected@);
            proof {
                lemma_sel_map_index(selected@, d.name);
                assert(exists|q: int| 0 <= q < selected@.len()
                    && (#[trigger] selected@[q])@.id.name == d.name);
                assert(selc2.contains_key(d.name));
                assert(selc2[d.name] == selected@[sel_idx as int]@);
            }
            let ok = best.depends[i].predicate.matches(
                selected[sel_idx].id.version.as_str());
            if !ok {
                proof {
                    assert(rp_deps(uvv, depsv.skip(i as int), flavour@, arch@, selc, path1)
                        == Err::<Map<Seq<char>, MetaV>, DepresErrorV>(
                            DepresErrorV::VersionConstraint(d.name)));
                    assert(rp_spec(uvv, name@, flavour@, arch@, sel0, path0)
                        == Err::<Map<Seq<char>, MetaV>, DepresErrorV>(
                            DepresErrorV::VersionConstraint(d.name)));
                }
                return Err(DepresError::VersionConstraint(dep_name));
            }
            proof {
                assert(rp_deps(uvv, depsv.skip(i as int), flavour@, arch@, selc, path1)
                    == rp_deps(uvv, depsv.skip(i as int + 1), flavour@, arch@, selc2, path1));
            }
            i = i + 1;
        }
        proof {
            assert(depsv.skip(deps_len as int) =~= Seq::<DependencyV>::empty());
            assert(rp_deps(uvv, depsv, flavour@, arch@, sel0, path1)
                == Ok::<Map<Seq<char>, MetaV>, DepresErrorV>(sel_map(selected@)));
        }
        let ghost sel_before_insert = sel_map(selected@);
        insert_sel(selected, best);
        let _ = visited.pop();
        proof {
            assert(visited@ =~= v0);
            assert(sel_map(selected@) == sel_before_insert.insert(name@, bestv));
            assert(rp_spec(uvv, name@, flavour@, arch@, sel0, path0)
                == Ok::<Map<Seq<char>, MetaV>, DepresErrorV>(sel_map(selected@)));
        }
        Ok(())
    }

    /// Resolve a root set against the system flavour and architecture,
    /// returning the selection `resolve_roots_spec` denotes, or exactly
    /// the failure it denotes.
    #[verifier::loop_isolation(false)]
    pub fn resolve(
        &self,
        root_packages: &Vec<String>,
        system_flavour: &str,
        arch: &str,
    ) -> (r: Result<ResolutionSolution, DepresError>)
        ensures
            match r {
                Ok(sol) => sol.wf()
                    && resolve_roots_spec(self@, root_packages.deep_view(), system_flavour@,
                        arch@, Map::empty())
                        == Ok::<Map<Seq<char>, MetaV>, DepresErrorV>(sol@),
                Err(e) => resolve_roots_spec(self@, root_packages.deep_view(), system_flavour@,
                    arch@, Map::empty())
                    == Err::<Map<Seq<char>, MetaV>, DepresErrorV>(e@),
            },
    {
        let ghost uvv = self@;
        let ghost rootsv = root_packages.deep_view();
        let mut selected: Vec<PackageMetadata> = Vec::new();
        let mut visited: Vec<String> = Vec::new();
        proof {
            assert(sel_map(selected@) =~= Map::<Seq<char>, MetaV>::empty());
            lemma_path_of_empty();
            assert(rootsv.skip(0) =~= rootsv);
        }
        let n = root_packages.len();
        let mut i: usize = 0;
        while i < n
            invariant
                i <= n,
                n == root_packages@.len(),
                sel_unique(selected@),
                visited@ == Seq::<String>::empty(),
                resolve_roots_spec(uvv, rootsv.skip(i as int), system_flavour@, arch@,
                    sel_map(selected@))
                    == resolve_roots_spec(uvv, rootsv, system_flavour@, arch@, Map::empty()),
            decreases n - i,
        {
            let ghost selc = sel_map(selected@);
            proof {
                assert(rootsv.skip(i as int)[0] == rootsv[i as int]);
                assert(rootsv.skip(i as int).drop_first() =~= rootsv.skip(i as int + 1));
                assert(rootsv[i as int] == root_packages@[i as int]@);
                assert(path_of(visited@) == Set::<Seq<char>>::empty());
            }
            let root = &root_packages[i];
            let rr = self.resolve_package(
                root.as_str(), system_flavour, arch, &mut selected, &mut visited);
            match rr {
                Err(e) => {
                    proof {
                        assert(resolve_roots_spec(uvv, rootsv.skip(i as int), system_flavour@,
                            arch@, selc)
                            == Err::<Map<Seq<char>, MetaV>, DepresErrorV>(e@));
                    }
                    return Err(e);
                }
                Ok(()) => {
                    proof {
                        assert(resolve_roots_spec(uvv, rootsv.skip(i as int), system_flavour@,
                            arch@, selc)
                            == resolve_roots_spec(uvv, rootsv.skip(i as int + 1), system_flavour@,
                                arch@, sel_map(selected@)));
                    }
                }
            }
            i = i + 1;
        }
        proof {
            assert(rootsv.skip(n as int) =~= Seq::<Seq<char>>::empty());
            assert(resolve_roots_spec(uvv, rootsv, system_flavour@, arch@, Map::empty())
                == Ok::<Map<Seq<char>, MetaV>, DepresErrorV>(sel_map(selected@)));
        }
        let mut packages: Vec<PackageId> = Vec::new();
        let mut k: usize = 0;
        while k < selected.len()
            invariant
                k <= selected@.len(),
                packages@.len() == k,
                forall|j: int| 0 <= j < k
                    ==> (#[trigger] packages@[j])@ == selected@[j]@.id,
            decreases selected@.len() - k,
        {
            packages.push(selected[k].id.duplicate());
            k = k + 1;
        }
        Ok(ResolutionSolution { packages, selections: selected })
    }
}

/// At position `k` of an install order, every dependency edge whose
/// target is selected points at an earlier position.
pub open spec fn deps_before_at(ord: Seq<MetaV>, sol: Map<Seq<char>, MetaV>, k: int) -> bool {
    forall|d: int| 0 <= d < ord[k].depends.len() && sol.contains_key(
        (#[trigger] ord[k].depends[d]).name)
        ==> exists|j: int| 0 <= j < k && (#[trigger] ord[j]).id.name == ord[k].depends[d].name
}

/// Dependencies come before dependents throughout the order.
pub open spec fn deps_before(ord: Seq<MetaV>, sol: Map<Seq<char>, MetaV>) -> bool {
    forall|k: int| 0 <= k < ord.len() ==> #[trigger] deps_before_at(ord, sol, k)
}

/// The selection at `idx` has a selected dependency that the order so
/// far does not contain.
pub open spec fn blocked(sel: Seq<PackageMetadata>, ord: Seq<PackageMetadata>, idx: int) -> bool {
    exists|d: int| 0 <= d < sel[idx]@.depends.len()
        && sel_map(sel).contains_key((#[trigger] sel[idx]@.depends[d]).name)
        && (forall|j: int| 0 <= j < ord.len()
            ==> (#[trigger] ord[j])@.id.name != sel[idx]@.depends[d].name)
}

/// Some set of selected names, with at least one member, each of which
/// has a dependency edge into the set — no order can put every member's
/// dependencies before it.
pub open spec fn has_dependency_cycle(m: Map<Seq<char>, MetaV>) -> bool {
    exists|s: Set<Seq<char>>| #[trigger] s.subset_of(m.dom())
        && (exists|k: Seq<char>| s.contains(k))
        && (forall|k: Seq<char>| #[trigger] s.contains(k) ==> exists|d: int|
            0 <= d < m[k].depends.len() && s.contains((#[trigger] m[k].depends[d]).name))
}

/// How many entries of a boolean sequence are set.
pub open spec fn count_true(s: Seq<bool>) -> int
    decreases s.len(),
{
    if s.len() == 0 {
        0
    } else {
        count_true(s.drop_last()) + if s.last() {
            1int
        } else {
            0int
        }
    }
}

/// Setting an unset entry raises the count by one.
proof fn lemma_count_true_update(s: Seq<bool>, i: int)
    requires
        0 <= i < s.len(),
        !s[i],
    ensures
        count_true(s.update(i, true)) == count_true(s) + 1,
    decreases s.len(),
{
    let t = s.update(i, true);
    if i == s.len() - 1 {
        assert(t.drop_last() =~= s.drop_last());
    } else {
        assert(t.drop_last() =~= s.drop_last().update(i, true));
        assert(s.drop_last()[i] == s[i]);
        lemma_count_true_update(s.drop_last(), i);
        assert(t.last() == s.last());
    }
}

/// The count is bounded by the length, and a short count leaves an
/// unset entry.
proof fn lemma_count_true_range(s: Seq<bool>)
    ensures
        0 <= count_true(s) <= s.len(),
        count_true(s) < s.len() ==> exists|i: int| 0 <= i < s.len() && !(#[trigger] s[i]),
    decreases s.len(),
{
    if s.len() != 0 {
        lemma_count_true_range(s.drop_last());
        if count_true(s) < s.len() {
            if !s.last() {
                assert(!s[s.len() - 1]);
            } else {
                let i = choose|i: int| 0 <= i < s.drop_last().len()
                    && !(#[trigger] s.drop_last()[i]);
                assert(s.drop_last()[i] == s[i]);
            }
        }
    }
}

/// Whether every selected dependency of the selection at `idx` already
/// appears in the order built so far.
fn deps_emitted(sel: &Vec<PackageMetadata>, ord: &Vec<PackageMetadata>, idx: usize) -> (r: bool)
    requires
        idx < sel@.len(),
    ensures
        r == (forall|d: int| 0 <= d < sel@[idx as int]@.depends.len() && sel_map(sel@)
            .contains_key((#[trigger] sel@[idx as int]@.depends[d]).name)
            ==> exists|j: int| 0 <= j < ord@.len()
                && (#[trigger] ord@[j])@.id.name == sel@[idx as int]@.depends[d].name),
        !r ==> blocked(sel@, ord@, idx as int),
{
    let entry = &sel[idx];
    let dn = entry.depends.len();
    let mut d: usize = 0;
    while d < dn
        invariant
            d <= dn,
            dn == entry.depends@.len(),
            entry == sel@[idx as int],
            forall|q: int| 0 <= q < d && sel_map(sel@).contains_key(
                (#[trigger] sel@[idx as int]@.depends[q]).name)
                ==> exists|j: int| 0 <= j < ord@.len()
                    && (#[trigger] ord@[j])@.id.name == sel@[idx as int]@.depends[q].name,
        decreases dn - d,
    {
        let dep_name = entry.depends[d].name.as_str();
        proof {
            lemma_sel_map_index(sel@, dep_name@);
        }
        match find_sel(sel, dep_name) {
            None => {
                proof {
                    assert(!sel_map(sel@).contains_key(sel@[idx as int]@.depends[d as int].name));
                }
            }
            Some(_) => {
                match find_sel(ord, dep_name) {
                    None => {
                        proof {
                            assert(sel_map(sel@).contains_key(
                                sel@[idx as int]@.depends[d as int].name));
                            assert(forall|j: int| 0 <= j < ord@.len()
                                ==> (#[trigger] ord@[j])@.id.name
                                    != sel@[idx as int]@.depends[d as int].name);
                            assert(blocked(sel@, ord@, idx as int));
                        }
                        return false;
                    }
                    Some(j) => {
                        proof {
                            assert(ord@[j as int]@.id.name
                                == sel@[idx as int]@.depends[d as int].name);
                        }
                    }
                }
            }
        }
        d = d + 1;
    }
    true
}

/// Find an unemitted selection whose selected dependencies are all
/// emitted, and remember the first unemitted one seen.
fn scan_candidate(sel: &Vec<PackageMetadata>, ord: &Vec<PackageMetadata>, used: &Vec<bool>)
    -> (r: (Option<usize>, Option<usize>))
    requires
        used@.len() == sel@.len(),
    ensures
        match r.0 {
            Some(p) => p < sel@.len() && !used@[p as int]
                && (forall|d: int| 0 <= d < sel@[p as int]@.depends.len()
                    && sel_map(sel@).contains_key(
                    (#[trigger] sel@[p as int]@.depends[d]).name)
                    ==> exists|j: int| 0 <= j < ord@.len()
                        && (#[trigger] ord@[j])@.id.name == sel@[p as int]@.depends[d].name),
            None => forall|q: int| 0 <= q < sel@.len() && !(#[trigger] used@[q])
                ==> blocked(sel@, ord@, q),
        },
        match r.1 {
            Some(f) => f < sel@.len() && !used@[f as int],
            None => forall|q: int| 0 <= q < used@.len() ==> #[trigger] used@[q],
        },
{
    let n = sel.len();
    let mut fallback: Option<usize> = None;
    let mut i: usize = 0;
    while i < n
        invariant
            i <= n,
            n == sel@.len(),
            n == used@.len(),
            forall|q: int| 0 <= q < i && !(#[trigger] used@[q]) ==> blocked(sel@, ord@, q),
            match fallback {
                Some(f) => f < n && !used@[f as int],
                None => forall|q: int| 0 <= q < i ==> #[trigger] used@[q],
            },
        decreases n - i,
    {
        if !used[i] {
            if fallback.is_none() {
                fallback = Some(i);
            }
            if deps_emitted(sel, ord, i) {
                return (Some(i), fallback);
            }
        }
        i = i + 1;
    }
    (None, fallback)
}

impl ResolutionSolution {
    /// Order the selections so that dependencies come before their
    /// dependents: the result has one entry per selection, all names
    /// distinct, each entry one of the selections, and every selected
    /// dependency edge pointing backwards.  Failure means, and is owed
    /// only to, a dependency cycle among the selections, reported as
    /// `CircularDependency`; a cycle-free solution always orders.
    #[verifier::loop_isolation(false)]
    pub fn install_order(&self) -> (r: Result<Vec<PackageMetadata>, DepresError>)
        requires
            self.wf(),
        ensures
            match r {
                Ok(ord) => ({
                    &&& ord@.len() == self.selections@.len()
                    &&& sel_unique(ord@)
                    &&& forall|i: int| 0 <= i < ord@.len() ==> exists|j: int|
                        0 <= j < self.selections@.len()
                            && (#[trigger] ord@[i])@ == self.selections@[j]@
                    &&& deps_before(ord@.map_values(|p: PackageMetadata| p@), self@)
                }),
                Err(e) => has_dependency_cycle(self@)
                    && e matches DepresError::CircularDependency(_),
            },
    {
        let n = self.selections.len();
        let mut used: Vec<bool> = Vec::new();
        let mut w: usize = 0;
        while w < n
            invariant
                w <= n,
                used@.len() == w,
                count_true(used@) == 0,
                forall|j: int| 0 <= j < w ==> !(#[trigger] used@[j]),
            decreases n - w,
        {
            let ghost u0 = used@;
            used.push(false);
            proof {
                assert(used@.drop_last() =~= u0);
            }
            w = w + 1;
        }
        let mut ord: Vec<PackageMetadata> = Vec::new();
        while ord.len() < n
            invariant
                n == self.selections@.len(),
                used@.len() == n,
                ord@.len() <= n,
                forall|i: int| 0 <= i < ord@.len() ==> exists|j: int|
                    0 <= j < self.selections@.len()
                        && (#[trigger] ord@[i])@ == self.selections@[j]@,
                sel_unique(ord@),
                forall|i: int| 0 <= i < n && !used@[i] ==> forall|j: int| 0 <= j < ord@.len()
                    ==> (#[trigger] ord@[j])@.id.name
                        != (#[trigger] self.selections@[i])@.id.name,
                forall|j: int| 0 <= j < n && #[trigger] used@[j] ==> exists|q: int|
                    0 <= q < ord@.len()
                        && (#[trigger] ord@[q])@.id.name == self.selections@[j]@.id.name,
                count_true(used@) == ord@.len(),
                deps_before(ord@.map_values(|p: PackageMetadata| p@), self@),
            decreases n - ord@.len(),
        {
            let scan = scan_candidate(&self.selections, &ord, &used);
            let pick = scan.0;
            let fallback = scan.1;
            match pick {
                Some(p) => {
                    let ghost ordv0 = ord@;
                    let ghost usedv0 = used@;
                    let m = self.selections[p].duplicate();
                    let ghost mv = m@;
                    used.set(p, true);
                    ord.push(m);
                    proof {
                        lemma_count_true_update(usedv0, p as int);
                        assert(ord@.drop_last() =~= ordv0);
                        assert(ord@[ord@.len() - 1] == m);
                        assert forall|j: int| 0 <= j < n && #[trigger] used@[j] implies
                            exists|q: int| 0 <= q < ord@.len()
                                && (#[trigger] ord@[q])@.id.name
                                    == self.selections@[j]@.id.name by {
                            if j == p {
                                assert(ord@[ord@.len() - 1]@.id.name
                                    == self.selections@[j]@.id.name);
                            } else {
                                assert(usedv0[j]);
                                let q = choose|q: int| 0 <= q < ordv0.len()
                                    && (#[trigger] ordv0[q])@.id.name
                                        == self.selections@[j]@.id.name;
                                assert(ord@[q] == ordv0[q]);
                            }
                        }
                        let mapped = ord@.map_values(|pm: PackageMetadata| pm@);
                        let mapped0 = ordv0.map_values(|pm: PackageMetadata| pm@);
                        assert forall|a: int, b: int| 0 <= a < b < ord@.len() implies
                            (#[trigger] ord@[a])@.id.name != (#[trigger] ord@[b])@.id.name by {
                            assert(ord@[a] == ordv0[a]);
                            if b < ord@.len() - 1 {
                                assert(ord@[b] == ordv0[b]);
                            }
                        }
                        assert forall|k: int| 0 <= k < mapped.len() implies
                            #[trigger] deps_before_at(mapped, self@, k) by {
                            if k < mapped.len() - 1 {
                                assert(deps_before_at(mapped0, self@, k));
                                assert(mapped[k] == mapped0[k]);
                                assert forall|d: int| 0 <= d < mapped[k].depends.len()
                                    && self@.contains_key(
                                    (#[trigger] mapped[k].depends[d]).name) implies
                                    exists|j: int| 0 <= j < k
                                        && (#[trigger] mapped[j]).id.name
                                            == mapped[k].depends[d].name by {
                                    let j = choose|j: int| 0 <= j < k
                                        && (#[trigger] mapped0[j]).id.name
                                            == mapped0[k].depends[d].name;
                                    assert(mapped[j] == mapped0[j]);
                                }
                            } else {
                                assert(mapped[k] == mv);
                                assert forall|d: int| 0 <= d < mapped[k].depends.len()
                                    && self@.contains_key(
                                    (#[trigger] mapped[k].depends[d]).name) implies
                                    exists|j: int| 0 <= j < k
                                        && (#[trigger] mapped[j]).id.name
                                            == mapped[k].depends[d].name by {
                                    assert(mv.depends[d] == self.selections@[p as int]@.depends[d]);
                                    let j = choose|j: int| 0 <= j < ordv0.len()
                                        && (#[trigger] ordv0[j])@.id.name
                                            == self.selections@[p as int]@.depends[d].name;
                                    assert(mapped[j] == ordv0[j]@);
                                }
                            }
                        }
                    }
                }
                None => {
                    match fallback {
                        Some(f) => {
                            proof {
                                broadcast use vstd::set::group_set_axioms;

                                let selv = self.selections@;
                                let usedv = used@;
                                let ordv = ord@;
                                let m = sel_map(selv);
                                let cyc = Set::new(|k: Seq<char>| exists|i: int|
                                    0 <= i < selv.len() && !usedv[i]
                                        && (#[trigger] selv[i])@.id.name == k);
                                assert(cyc.contains(selv[f as int]@.id.name));
                                assert forall|k: Seq<char>| #[trigger] cyc.contains(k) implies
                                    m.dom().contains(k) by {
                                    let i = choose|i: int| 0 <= i < selv.len() && !usedv[i]
                                        && (#[trigger] selv[i])@.id.name == k;
                                    lemma_sel_map_index(selv, k);
                                }
                                assert(cyc.subset_of(m.dom()));
                                assert forall|k: Seq<char>| #[trigger] cyc.contains(k) implies
                                    exists|d: int| 0 <= d < m[k].depends.len()
                                        && cyc.contains((#[trigger] m[k].depends[d]).name) by {
                                    let i = choose|i: int| 0 <= i < selv.len() && !usedv[i]
                                        && (#[trigger] selv[i])@.id.name == k;
                                    lemma_sel_map_index(selv, k);
                                    assert(m[k] == selv[i]@);
                                    assert(blocked(selv, ordv, i));
                                    let d = choose|d: int| 0 <= d < selv[i]@.depends.len()
                                        && sel_map(selv).contains_key(
                                        (#[trigger] selv[i]@.depends[d]).name)
                                        && (forall|j: int| 0 <= j < ordv.len()
                                            ==> (#[trigger] ordv[j])@.id.name
                                                != selv[i]@.depends[d].name);
                                    let dn = selv[i]@.depends[d].name;
                                    lemma_sel_map_index(selv, dn);
                                    let i2 = choose|i2: int| 0 <= i2 < selv.len()
                                        && (#[trigger] selv[i2])@.id.name == dn;
                                    assert(!usedv[i2]) by {
                                        if usedv[i2] {
                                            let q = choose|q: int| 0 <= q < ordv.len()
                                                && (#[trigger] ordv[q])@.id.name
                                                    == selv[i2]@.id.name;
                                        }
                                    }
                                    assert(cyc.contains(dn));
                                    assert(0 <= d < m[k].depends.len()
                                        && cyc.contains(m[k].depends[d].name));
                                }
                                assert(has_dependency_cycle(m));
                            }
                            return Err(DepresError::CircularDependency(
                                self.selections[f].id.name.clone()));
                        }
                        None => {
                            // unreachable: fewer emissions than selections
                            // leaves an unemitted selection for the scan to
                            // report
                            proof {
                                lemma_count_true_range(used@);
                                assert(false);
                            }
                            return Err(DepresError::CircularDependency(String::new()));
                        }
                    }
                }
            }
        }
        Ok(ord)
    }
}

/// A selection's dependency edges are all satisfied inside `m`: each
/// target name is selected and the selected version meets the predicate.
pub open spec fn deps_satisfied_in(m: Map<Seq<char>, MetaV>, meta: MetaV) -> bool {
    forall|j: int| 0 <= j < meta.depends.len() ==> {
        let d = #[trigger] meta.depends[j];
        m.contains_key(d.name) && pred_matches(d.predicate, m[d.name].id.version)
    }
}

/// Every selection in `m` is the canonical choice for its key.
pub open spec fn coherent(
    uv: Seq<MetaV>,
    flavour: Seq<char>,
    arch: Seq<char>,
    m: Map<Seq<char>, MetaV>,
) -> bool {
    forall|k: Seq<char>| #[trigger] m.contains_key(k)
        ==> best_of(candidates(uv, k, arch, flavour)) == Some(m[k])
}

/// Satisfied dependency edges stay satisfied in any coherent extension.
proof fn lemma_deps_sat_transfer(
    uv: Seq<MetaV>,
    flavour: Seq<char>,
    arch: Seq<char>,
    m1: Map<Seq<char>, MetaV>,
    m2: Map<Seq<char>, MetaV>,
    meta: MetaV,
)
    requires
        coherent(uv, flavour, arch, m1),
        coherent(uv, flavour, arch, m2),
        m1.dom().subset_of(m2.dom()),
        deps_satisfied_in(m1, meta),
    ensures
        deps_satisfied_in(m2, meta),
{
    assert forall|j: int| 0 <= j < meta.depends.len() implies {
        let d = #[trigger] meta.depends[j];
        m2.contains_key(d.name) && pred_matches(d.predicate, m2[d.name].id.version)
    } by {
        let d = meta.depends[j];
        assert(m1.contains_key(d.name));
        assert(m2.dom().contains(d.name));
        assert(m2[d.name] == m1[d.name]);
    }
}

/// What a successful `rp_spec` guarantees: a coherent extension of the
/// starting selection that records the name, satisfies its dependency
/// edges, and satisfies the edges of everything newly selected.
pub open spec fn rp_spec_post(
    uv: Seq<MetaV>,
    flavour: Seq<char>,
    arch: Seq<char>,
    sel: Map<Seq<char>, MetaV>,
    m: Map<Seq<char>, MetaV>,
    name: Seq<char>,
) -> bool {
    &&& coherent(uv, flavour, arch, m)
    &&& sel.dom().subset_of(m.dom())
    &&& m.contains_key(name)
    &&& deps_satisfied_in(m, m[name])
    &&& forall|k: Seq<char>| #[trigger] m.contains_key(k) && !sel.contains_key(k)
        ==> deps_satisfied_in(m, m[k])
}

/// What a successful `rp_deps` guarantees: a coherent extension in which
/// every listed edge is satisfied, and so are the edges of everything
/// newly selected.
pub open spec fn rp_deps_post(
    uv: Seq<MetaV>,
    flavour: Seq<char>,
    arch: Seq<char>,
    sel: Map<Seq<char>, MetaV>,
    m: Map<Seq<char>, MetaV>,
    deps: Seq<DependencyV>,
) -> bool {
    &&& coherent(uv, flavour, arch, m)
    &&& sel.dom().subset_of(m.dom())
    &&& forall|j: int| 0 <= j < deps.len() ==> {
        let d = #[trigger] deps[j];
        m.contains_key(d.name) && pred_matches(d.predicate, m[d.name].id.version)
    }
    &&& forall|k: Seq<char>| #[trigger] m.contains_key(k) && !sel.contains_key(k)
        ==> deps_satisfied_in(m, m[k])
}

proof fn lemma_rp_spec_closure(
    uv: Seq<MetaV>,
    name: Seq<char>,
    flavour: Seq<char>,
    arch: Seq<char>,
    sel: Map<Seq<char>, MetaV>,
    path: Set<Seq<char>>,
)
    requires
        path.finite(),
        coherent(uv, flavour, arch, sel),
    ensures
        rp_spec(uv, name, flavour, arch, sel, path) is Ok ==> rp_spec_post(
            uv, flavour, arch, sel, rp_spec(uv, name, flavour, arch, sel, path)->Ok_0, name),
    decreases universe_names(uv).difference(path).len(), 0int, 0int,
{
    if !path.contains(name) {
        let cands = candidates(uv, name, arch, flavour);
        if cands.len() != 0 {
            match best_of(cands) {
                None => {}
                Some(best) => {
                    if best.id.flavour == flavour {
                        lemma_universe_names(uv, name, arch, flavour);
                        universe_names(uv).lemma_set_insert_diff_decreases(path, name);
                        lemma_rp_deps_closure(uv, best.depends, flavour, arch, sel,
                            path.insert(name));
                        match rp_deps(uv, best.depends, flavour, arch, sel, path.insert(name)) {
                            Err(_) => {}
                            Ok(sel2) => {
                                let m = sel2.insert(name, best);
                                assert(rp_deps_post(uv, flavour, arch, sel, sel2, best.depends));
                                assert(coherent(uv, flavour, arch, m)) by {
                                    assert forall|k: Seq<char>| #[trigger] m.contains_key(k)
                                        implies best_of(candidates(uv, k, arch, flavour))
                                            == Some(m[k]) by {
                                        if k != name {
                                            assert(sel2.contains_key(k));
                                        }
                                    }
                                }
                                assert(sel2.dom().subset_of(m.dom()));
                                assert(forall|t: Seq<char>| #[trigger] sel2.contains_key(t)
                                    ==> m[t] == sel2[t]) by {
                                    if sel2.contains_key(name) {
                                        assert(sel2[name] == best);
                                    }
                                }
                                assert(deps_satisfied_in(m, best)) by {
                                    assert forall|j: int| 0 <= j < best.depends.len() implies {
                                        let d = #[trigger] best.depends[j];
                                        m.contains_key(d.name)
                                            && pred_matches(d.predicate, m[d.name].id.version)
                                    } by {
                                        let d = best.depends[j];
                                        assert(sel2.contains_key(d.name));
                                        assert(m[d.name] == sel2[d.name]);
                                    }
                                }
                                assert forall|k: Seq<char>| #[trigger] m.contains_key(k)
                                    && !sel.contains_key(k)
                                    implies deps_satisfied_in(m, m[k]) by {
                                    if k == name {
                                        assert(m[k] == best);
                                    } else {
                                        assert(sel2.contains_key(k));
                                        assert(deps_satisfied_in(sel2, sel2[k]));
                                        lemma_deps_sat_transfer(uv, flavour, arch, sel2, m,
                                            sel2[k]);
                                    }
                                }
                            }
                        }
                    }
                }
            }
        }
    }
}

proof fn lemma_rp_deps_closure(
    uv: Seq<MetaV>,
    deps: Seq<DependencyV>,
    flavour: Seq<char>,
    arch: Seq<char>,
    sel: Map<Seq<char>, MetaV>,
    path: Set<Seq<char>>,
)
    requires
        path.finite(),
        coherent(uv, flavour, arch, sel),
    ensures
        rp_deps(uv, deps, flavour, arch, sel, path) is Ok ==> rp_deps_post(
            uv, flavour, arch, sel, rp_deps(uv, deps, flavour, arch, sel, path)->Ok_0, deps),
    decreases universe_names(uv).difference(path).len(), 1int, deps.len(),
{
    if deps.len() == 0 {
        if rp_deps(uv, deps, flavour, arch, sel, path) is Ok {
            assert(rp_deps(uv, deps, flavour, arch, sel, path)->Ok_0 == sel);
        }
    } else {
        let d = deps[0];
        if sel.contains_key(d.name) {
            if pred_matches(d.predicate, sel[d.name].id.version) {
                lemma_rp_deps_closure(uv, deps.drop_first(), flavour, arch, sel, path);
                match rp_deps(uv, deps.drop_first(), flavour, arch, sel, path) {
                    Err(_) => {}
                    Ok(m) => {
                        assert(rp_deps_post(uv, flavour, arch, sel, m, deps.drop_first()));
                        assert forall|j: int| 0 <= j < deps.len() implies {
                            let dj = #[trigger] deps[j];
                            m.contains_key(dj.name)
                                && pred_matches(dj.predicate, m[dj.name].id.version)
                        } by {
                            if j == 0 {
                                assert(m.dom().contains(d.name));
                                assert(m[d.name] == sel[d.name]);
                            } else {
                                assert(deps.drop_first()[j - 1] == deps[j]);
                            }
                        }
                    }
                }
            }
        } else {
            lemma_rp_spec_closure(uv, d.name, flavour, arch, sel, path);
            match rp_spec(uv, d.name, flavour, arch, sel, path) {
                Err(_) => {}
                Ok(m1) => {
                    assert(rp_spec_post(uv, flavour, arch, sel, m1, d.name));
                    if pred_matches(d.predicate, m1[d.name].id.version) {
                        lemma_rp_deps_closure(uv, deps.drop_first(), flavour, arch, m1, path);
                        match rp_deps(uv, deps.drop_first(), flavour, arch, m1, path) {
                            Err(_) => {}
                            Ok(m) => {
                                assert(rp_deps_post(uv, flavour, arch, m1, m, deps.drop_first()));
                                assert(sel.dom().subset_of(m.dom()));
                                assert forall|j: int| 0 <= j < deps.len() implies {
                                    let dj = #[trigger] deps[j];
                                    m.contains_key(dj.name)
                                        && pred_matches(dj.predicate, m[dj.name].id.version)
                                } by {
                                    if j == 0 {
                                        assert(m1.dom().contains(d.name));
                                        assert(m.dom().contains(d.name));
                                        assert(m[d.name] == m1[d.name]);
                                    } else {
                                        assert(deps.drop_first()[j - 1] == deps[j]);
                                    }
                                }
                                assert forall|k: Seq<char>| #[trigger] m.contains_key(k)
                                    && !sel.contains_key(k)
                                    implies deps_satisfied_in(m, m[k]) by {
                                    if m1.contains_key(k) {
                                        assert(deps_satisfied_in(m1, m1[k]));
                                        assert(m[k] == m1[k]);
                                        lemma_deps_sat_transfer(uv, flavour, arch, m1, m, m1[k]);
                                    }
                                }
                            }
                        }
                    }
                }
            }
        }
    }
}

proof fn lemma_roots_closure(
    uv: Seq<MetaV>,
    roots: Seq<Seq<char>>,
    flavour: Seq<char>,
    arch: Seq<char>,
    sel: Map<Seq<char>, MetaV>,
)
    requires
        coherent(uv, flavour, arch, sel),
        forall|k: Seq<char>| #[trigger] sel.contains_key(k) ==> deps_satisfied_in(sel, sel[k]),
    ensures
        resolve_roots_spec(uv, roots, flavour, arch, sel) is Ok ==> {
            let m = resolve_roots_spec(uv, roots, flavour, arch, sel)->Ok_0;
            &&& coherent(uv, flavour, arch, m)
            &&& forall|k: Seq<char>| #[trigger] m.contains_key(k) ==> deps_satisfied_in(m, m[k])
        },
    decreases roots.len(),
{
    if roots.len() != 0 {
        lemma_rp_spec_closure(uv, roots[0], flavour, arch, sel, Set::empty());
        match rp_spec(uv, roots[0], flavour, arch, sel, Set::empty()) {
            Err(_) => {}
            Ok(m1) => {
                assert(rp_spec_post(uv, flavour, arch, sel, m1, roots[0]));
                assert forall|k: Seq<char>| #[trigger] m1.contains_key(k)
                    implies deps_satisfied_in(m1, m1[k]) by {
                    if sel.contains_key(k) {
                        assert(deps_satisfied_in(sel, sel[k]));
                        assert(m1[k] == sel[k]);
                        lemma_deps_sat_transfer(uv, flavour, arch, sel, m1, sel[k]);
                    }
                }
                lemma_roots_closure(uv, roots.drop_first(), flavour, arch, m1);
            }
        }
    }
}

/// Law: in any successful resolution, every dependency of every selected
/// package has a selected package of the dependency's name, and that
/// selection's version satisfies the dependency's predicate.
pub proof fn lemma_resolver_closure(
    uv: Seq<MetaV>,
    roots: Seq<Seq<char>>,
    flavour: Seq<char>,
    arch: Seq<char>,
)
    ensures
        resolve_roots_spec(uv, roots, flavour, arch, Map::empty()) is Ok ==> {
            let m = resolve_roots_spec(uv, roots, flavour, arch, Map::empty())->Ok_0;
            forall|k: Seq<char>| #[trigger] m.contains_key(k) ==> deps_satisfied_in(m, m[k])
        },
{
    lemma_roots_closure(uv, roots, flavour, arch, Map::empty());
}

/// Law: the resolver is deterministic — identical universes and inputs
/// denote identical outcomes, so two runs select the same set.
pub proof fn lemma_resolver_deterministic(
    u1: Seq<MetaV>,
    u2: Seq<MetaV>,
    roots1: Seq<Seq<char>>,
    roots2: Seq<Seq<char>>,
    flavour1: Seq<char>,
    flavour2: Seq<char>,
    arch1: Seq<char>,
    arch2: Seq<char>,
)
    requires
        u1 == u2,
        roots1 == roots2,
        flavour1 == flavour2,
        arch1 == arch2,
    ensures
        resolve_roots_spec(u1, roots1, flavour1, arch1, Map::empty())
            == resolve_roots_spec(u2, roots2, flavour2, arch2, Map::empty()),
{
}

/// Law: a root whose key has no candidates resolves to `PackageNotFound`
/// naming that root.
pub proof fn lemma_resolver_missing_package(
    uv: Seq<MetaV>,
    name: Seq<char>,
    flavour: Seq<char>,
    arch: Seq<char>,
)
    requires
        candidates(uv, name, arch, flavour).len() == 0,
    ensures
        resolve_roots_spec(uv, seq![name], flavour, arch, Map::empty())
            == Err::<Map<Seq<char>, MetaV>, DepresErrorV>(DepresErrorV::PackageNotFound(name)),
{
    broadcast use vstd::set::group_set_axioms;

    let e: Set<Seq<char>> = Set::empty();
    assert(!e.contains(name));
    assert(rp_spec(uv, name, flavour, arch, Map::empty(), e)
        == Err::<Map<Seq<char>, MetaV>, DepresErrorV>(DepresErrorV::PackageNotFound(name)));
    assert(seq![name][0] == name);
    assert(resolve_roots_spec(uv, seq![name], flavour, arch, Map::empty())
        == Err::<Map<Seq<char>, MetaV>, DepresErrorV>(DepresErrorV::PackageNotFound(name)));
}

/// Law: flavour isolation — in a universe whose entries all carry a
/// flavour other than the system's, any root resolves to
/// `PackageNotFound`, because the lookup key includes the flavour.
pub proof fn lemma_resolver_flavour_isolation(
    uv: Seq<MetaV>,
    name: Seq<char>,
    system_flavour: Seq<char>,
    arch: Seq<char>,
)
    requires
        forall|i: int| 0 <= i < uv.len() ==> (#[trigger] uv[i]).id.flavour != system_flavour,
    ensures
        resolve_roots_spec(uv, seq![name], system_flavour, arch, Map::empty())
            == Err::<Map<Seq<char>, MetaV>, DepresErrorV>(DepresErrorV::PackageNotFound(name)),
{
    let cands = candidates(uv, name, arch, system_flavour);
    assert(cands.len() == 0) by {
        if cands.len() > 0 {
            broadcast use vstd::seq_lib::group_filter_ensures;

            let c = cands[0];
            let p = |m: MetaV| key_matches(m, name, arch, system_flavour);
            assert(uv.filter(p).contains(c));
            uv.lemma_filter_contains_rev(p, c);
            assert(key_matches(c, name, arch, system_flavour));
            let i = choose|i: int| 0 <= i < uv.len() && uv[i] == c;
            assert(uv[i].id.flavour != system_flavour);
        }
    }
    lemma_resolver_missing_package(uv, name, system_flavour, arch);
}

/// Law: cycle detection — a universe in which `a`'s only candidate
/// depends on `b` and `b`'s only candidate depends back on `a` resolves
/// root `a` to `CircularDependency`.
pub proof fn lemma_resolver_cycle(
    uv: Seq<MetaV>,
    a: Seq<char>,
    b: Seq<char>,
    flavour: Seq<char>,
    arch: Seq<char>,
    ma: MetaV,
    mb: MetaV,
)
    requires
        a != b,
        candidates(uv, a, arch, flavour) == seq![ma],
        candidates(uv, b, arch, flavour) == seq![mb],
        ma.id.flavour == flavour,
        mb.id.flavour == flavour,
        ma.depends.len() == 1,
        ma.depends[0].name == b,
        mb.depends.len() == 1,
        mb.depends[0].name == a,
    ensures
        resolve_roots_spec(uv, seq![a], flavour, arch, Map::empty())
            == Err::<Map<Seq<char>, MetaV>, DepresErrorV>(DepresErrorV::CircularDependency(a)),
{
    broadcast use vstd::set::group_set_axioms;

    let m0: Map<Seq<char>, MetaV> = Map::empty();
    let e: Set<Seq<char>> = Set::empty();
    let pa = e.insert(a);
    let pab = pa.insert(b);
    assert(seq![ma].drop_last() =~= Seq::<MetaV>::empty());
    assert(best_of(seq![ma]) == Some(ma)) by {
        reveal_with_fuel(best_of, 2);
    }
    assert(seq![mb].drop_last() =~= Seq::<MetaV>::empty());
    assert(best_of(seq![mb]) == Some(mb)) by {
        reveal_with_fuel(best_of, 2);
    }
    assert(!m0.contains_key(a) && !m0.contains_key(b));
    assert(pab.contains(a));
    assert(rp_spec(uv, a, flavour, arch, m0, pab)
        == Err::<Map<Seq<char>, MetaV>, DepresErrorV>(DepresErrorV::CircularDependency(a)));
    assert(ma.depends.drop_first() =~= Seq::<DependencyV>::empty());
    assert(mb.depends.drop_first() =~= Seq::<DependencyV>::empty());
    assert(rp_deps(uv, mb.depends, flavour, arch, m0, pab)
        == Err::<Map<Seq<char>, MetaV>, DepresErrorV>(DepresErrorV::CircularDependency(a)));
    assert(!pa.contains(b));
    assert(rp_spec(uv, b, flavour, arch, m0, pa)
        == Err::<Map<Seq<char>, MetaV>, DepresErrorV>(DepresErrorV::CircularDependency(a)));
    assert(rp_deps(uv, ma.depends, flavour, arch, m0, pa)
        == Err::<Map<Seq<char>, MetaV>, DepresErrorV>(DepresErrorV::CircularDependency(a)));
    assert(!e.contains(a));
    assert(rp_spec(uv, a, flavour, arch, m0, e)
        == Err::<Map<Seq<char>, MetaV>, DepresErrorV>(DepresErrorV::CircularDependency(a)));
    assert(seq![a][0] == a);
    assert(resolve_roots_spec(uv, seq![a], flavour, arch, m0)
        == Err::<Map<Seq<char>, MetaV>, DepresErrorV>(DepresErrorV::CircularDependency(a)));
}

} // verus!
