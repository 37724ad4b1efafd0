//! PEP 621 / PEP 735 dependency metadata for `pyproject.toml`, with verified
//! resolution of named requirement groups into flat requirement lists.
//!
//! The manifest types mirror the `[project]` and `[dependency-groups]`
//! tables. The resolver expands self-references (`spam[extra]`) and
//! `include-group` entries into concrete requirement lists, detecting
//! reference cycles and undefined references.

pub mod laws;
pub mod pep639_glob;
pub mod pep735_resolve;
pub mod resolution;

pub use pep639_glob::{check_pep639_glob, parse_pep639_glob, Pep639GlobError};
pub use pep735_resolve::RecursionResolutionError;
pub use resolution::ResolveError;

use vstd::prelude::*;

verus! {

/// One dependency specifier: a distribution name, the extras it activates,
/// and an opaque version/marker constraint carried through resolution
/// verbatim.
#[derive(Debug)]
pub struct Requirement {
    /// The distribution name.
    pub name: String,
    /// The extras activated on that name, e.g. `httpx` in `gidgethub[httpx]`.
    pub extras: Vec<String>,
    /// The version specifiers and environment markers, opaque to resolution.
    pub constraint: String,
}

/// The mathematical value of a [`Requirement`].
pub ghost struct ReqModel {
    pub name: Seq<char>,
    pub extras: Seq<Seq<char>>,
    pub constraint: Seq<char>,
}

impl View for Requirement {
    type V = ReqModel;

    open spec fn view(&self) -> ReqModel {
        ReqModel { name: self.name@, extras: self.extras.deep_view(), constraint: self.constraint@ }
    }
}

impl DeepView for Requirement {
    type V = ReqModel;

    open spec fn deep_view(&self) -> ReqModel {
        self.view()
    }
}

impl Requirement {
    /// Build a requirement from its parts.
    pub fn new(name: String, extras: Vec<String>, constraint: String) -> (r: Requirement)
        ensures
            r@ == (ReqModel { name: name@, extras: extras.deep_view(), constraint: constraint@ }),
    {
        Requirement { name, extras, constraint }
    }
}

impl Clone for Requirement {
    fn clone(&self) -> (r: Requirement)
        ensures
            r@ == self@,
    {
        let extras = clone_string_vec(&self.extras);
        Requirement { name: self.name.clone(), extras, constraint: self.constraint.clone() }
    }
}

/// Relies on `String::push`: appends one character to the string.
#[verifier::external_body]
pub(crate) fn push_char(s: &mut String, c: char)
    ensures
        final(s)@ == old(s)@.push(c),
{
    s.push(c)
}

/// Clone a vector of requirements, keeping its mathematical value.
pub(crate) fn clone_requirements(v: &Vec<Requirement>) -> (r: Vec<Requirement>)
    ensures
        r.deep_view() == v.deep_view(),
{
    let mut r: Vec<Requirement> = Vec::new();
    let mut i: usize = 0;
    while i < v.len()
        invariant
            i <= v.len(),
            r@.len() == i,
            forall|j: int| 0 <= j < i ==> r@[j]@ == v@[j]@,
        decreases v.len() - i,
    {
        r.push(v[i].clone());
        i = i + 1;
    }
    proof {
        assert(r.deep_view() =~= v.deep_view());
    }
    r
}

/// Clone a vector of strings, keeping its mathematical value.
fn clone_string_vec(v: &Vec<String>) -> (r: Vec<String>)
    ensures
        r.deep_view() == v.deep_view(),
{
    let mut r: Vec<String> = Vec::new();
    let mut i: usize = 0;
    while i < v.len()
        invariant
            i <= v.len(),
            r@.len() == i,
            forall|j: int| 0 <= j < i ==> r@[j]@ == v@[j]@,
        decreases v.len() - i,
    {
        r.push(v[i].clone());
        i = i + 1;
    }
    proof {
        assert(r.deep_view() =~= v.deep_view());
    }
    r
}

impl PartialEq for Requirement {
    fn eq(&self, other: &Requirement) -> (r: bool)
        ensures
            r == (self@ == other@),
    {
        let extras_eq = string_vec_eq(&self.extras, &other.extras);
        let r = self.name == other.name && extras_eq && self.constraint == other.constraint;
        proof {
            if r {
                assert(self@ == other@);
            }
        }
        r
    }
}

impl vstd::std_specs::cmp::PartialEqSpecImpl for Requirement {
    open spec fn obeys_eq_spec() -> bool {
        true
    }

    open spec fn eq_spec(&self, other: &Requirement) -> bool {
        self@ == other@
    }
}

impl Eq for Requirement {}

/// A specifier item in a dependency group: either a literal requirement or
/// an inclusion of another dependency group.
#[derive(Debug)]
pub enum DependencyGroupSpecifier {
    /// A PEP 508 requirement.
    Requirement(Requirement),
    /// An `include-group` table naming another dependency group.
    Table { include_group: String },
}

/// The mathematical value of a [`DependencyGroupSpecifier`].
pub ghost enum SpecifierModel {
    Requirement(ReqModel),
    Include(Seq<char>),
}

impl View for DependencyGroupSpecifier {
    type V = SpecifierModel;

    open spec fn view(&self) -> SpecifierModel {
        match self {
            DependencyGroupSpecifier::Requirement(r) => SpecifierModel::Requirement(r@),
            DependencyGroupSpecifier::Table { include_group } => SpecifierModel::Include(
                include_group@,
            ),
        }
    }
}

impl DeepView for DependencyGroupSpecifier {
    type V = SpecifierModel;

    open spec fn deep_view(&self) -> SpecifierModel {
        self.view()
    }
}

impl Clone for DependencyGroupSpecifier {
    fn clone(&self) -> (r: DependencyGroupSpecifier)
        ensures
            r@ == self@,
    {
        match self {
            DependencyGroupSpecifier::Requirement(r) => DependencyGroupSpecifier::Requirement(
                r.clone(),
            ),
            DependencyGroupSpecifier::Table { include_group } => DependencyGroupSpecifier::Table {
                include_group: include_group.clone(),
            },
        }
    }
}

impl PartialEq for DependencyGroupSpecifier {
    fn eq(&self, other: &DependencyGroupSpecifier) -> (r: bool)
        ensures
            r == (self@ == other@),
    {
        match (self, other) {
            (
                DependencyGroupSpecifier::Requirement(a),
                DependencyGroupSpecifier::Requirement(b),
            ) => *a == *b,
            (
                DependencyGroupSpecifier::Table { include_group: a },
                DependencyGroupSpecifier::Table { include_group: b },
            ) => *a == *b,
            _ => false,
        }
    }
}

impl vstd::std_specs::cmp::PartialEqSpecImpl for DependencyGroupSpecifier {
    open spec fn obeys_eq_spec() -> bool {
        true
    }

    open spec fn eq_spec(&self, other: &DependencyGroupSpecifier) -> bool {
        self@ == other@
    }
}

impl Eq for DependencyGroupSpecifier {}

/// Compare two vectors of strings by value.
fn string_vec_eq(a: &Vec<String>, b: &Vec<String>) -> (r: bool)
    ensures
        r == (a.deep_view() == b.deep_view()),
{
    if a.len() != b.len() {
        proof {
            assert(a.deep_view().len() == a@.len());
            assert(b.deep_view().len() == b@.len());
        }
        return false;
    }
    let mut i: usize = 0;
    while i < a.len()
        invariant
            i <= a.len(),
            a@.len() == b@.len(),
            forall|j: int| 0 <= j < i ==> a.deep_view()[j] == b.deep_view()[j],
        decreases a.len() - i,
    {
        if a[i] != b[i] {
            proof {
                assert(a.deep_view()[i as int] != b.deep_view()[i as int]);
            }
            return false;
        }
        i = i + 1;
    }
    proof {
        assert(a.deep_view() =~= b.deep_view());
    }
    true
}

/// First value bound to `k` in an ordered association list.
pub open spec fn assoc_get<V>(m: Seq<(Seq<char>, V)>, k: Seq<char>) -> Option<V>
    decreases m.len(),
{
    if m.len() == 0 {
        None
    } else if m[0].0 == k {
        Some(m[0].1)
    } else {
        assoc_get(m.drop_first(), k)
    }
}

/// Whether `k` is a key of the association list.
pub open spec fn assoc_has<V>(m: Seq<(Seq<char>, V)>, k: Seq<char>) -> bool {
    assoc_get(m, k) is Some
}

/// Bind `k` to `v`: replace the value in place if `k` is present, keeping
/// its position, and append a new pair otherwise.
pub open spec fn assoc_insert<V>(m: Seq<(Seq<char>, V)>, k: Seq<char>, v: V) -> Seq<
    (Seq<char>, V),
>
    decreases m.len(),
{
    if m.len() == 0 {
        seq![(k, v)]
    } else if m[0].0 == k {
        seq![(m[0].0, v)] + m.drop_first()
    } else {
        seq![m[0]] + assoc_insert(m.drop_first(), k, v)
    }
}

/// Looking up a key is unchanged by dropping a prefix of entries with other
/// keys.
pub proof fn lemma_assoc_get_skip<V>(m: Seq<(Seq<char>, V)>, k: Seq<char>, i: int)
    requires
        0 <= i <= m.len(),
        forall|j: int| 0 <= j < i ==> m[j].0 != k,
    ensures
        assoc_get(m, k) == assoc_get(m.skip(i), k),
    decreases i,
{
    if i > 0 {
        assert(m.len() > 0);
        assert(m[0].0 != k);
        assert(m.drop_first().skip(i - 1) =~= m.skip(i));
        lemma_assoc_get_skip(m.drop_first(), k, i - 1);
        assert(forall|j: int|
            0 <= j < i - 1 ==> m.drop_first()[j].0 == m[j + 1].0 && m[j + 1].0 != k);
    } else {
        assert(m.skip(0) =~= m);
    }
}

/// The `[project.optional-dependencies]` table: an ordered map from extra
/// name to requirement list, keys unique by construction of the manifest.
#[derive(Debug)]
pub struct OptionalDependencies(pub Vec<(String, Vec<Requirement>)>);

impl View for OptionalDependencies {
    type V = Seq<(Seq<char>, Seq<ReqModel>)>;

    open spec fn view(&self) -> Seq<(Seq<char>, Seq<ReqModel>)> {
        self.0.deep_view()
    }
}

/// The `[dependency-groups]` table: an ordered map from group name to
/// specifier list, keys unique by construction of the manifest.
#[derive(Debug)]
pub struct DependencyGroups(pub Vec<(String, Vec<DependencyGroupSpecifier>)>);

impl View for DependencyGroups {
    type V = Seq<(Seq<char>, Seq<SpecifierModel>)>;

    open spec fn view(&self) -> Seq<(Seq<char>, Seq<SpecifierModel>)> {
        self.0.deep_view()
    }
}

/// An ordered map from group name to resolved requirement list.
#[derive(Debug)]
pub struct RequirementMap(pub Vec<(String, Vec<Requirement>)>);

impl View for RequirementMap {
    type V = Seq<(Seq<char>, Seq<ReqModel>)>;

    open spec fn view(&self) -> Seq<(Seq<char>, Seq<ReqModel>)> {
        self.0.deep_view()
    }
}

impl OptionalDependencies {
    /// An empty table.
    pub fn new() -> (r: OptionalDependencies)
        ensures
            r@ == Seq::<(Seq<char>, Seq<ReqModel>)>::empty(),
    {
        let r = OptionalDependencies(Vec::new());
        proof {
            assert(r@ =~= Seq::<(Seq<char>, Seq<ReqModel>)>::empty());
        }
        r
    }

    /// The number of groups in the table.
    pub fn len(&self) -> (r: usize)
        ensures
            r == self@.len(),
    {
        self.0.len()
    }

    /// The name of the group at a position.
    pub fn key_at(&self, i: usize) -> (r: &String)
        requires
            i < self@.len(),
        ensures
            r@ == self@[i as int].0,
    {
        &self.0[i].0
    }
}

impl DependencyGroups {
    /// An empty table.
    pub fn new() -> (r: DependencyGroups)
        ensures
            r@ == Seq::<(Seq<char>, Seq<SpecifierModel>)>::empty(),
    {
        let r = DependencyGroups(Vec::new());
        proof {
            assert(r@ =~= Seq::<(Seq<char>, Seq<SpecifierModel>)>::empty());
        }
        r
    }

    /// The number of groups in the table.
    pub fn len(&self) -> (r: usize)
        ensures
            r == self@.len(),
    {
        self.0.len()
    }

    /// The name of the group at a position.
    pub fn key_at(&self, i: usize) -> (r: &String)
        requires
            i < self@.len(),
        ensures
            r@ == self@[i as int].0,
    {
        &self.0[i].0
    }

    /// The specifiers of the named group, by exact key.
    pub fn get(&self, name: &str) -> (r: Option<&Vec<DependencyGroupSpecifier>>)
        ensures
            match r {
                Some(v) => assoc_get(self@, name@) == Some(v.deep_view()),
                None => assoc_get(self@, name@) is None,
            },
    {
        let key: String = name.to_owned();
        let mut i: usize = 0;
        while i < self.0.len()
            invariant
                i <= self@.len(),
                key@ == name@,
                forall|j: int| 0 <= j < i ==> self@[j].0 != name@,
            decreases self@.len() - i,
        {
            if self.0[i].0 == key {
                proof {
                    lemma_assoc_get_skip(self@, name@, i as int);
                    assert(self@.skip(i as int)[0] == self@[i as int]);
                }
                return Some(&self.0[i].1);
            }
            i = i + 1;
        }
        proof {
            lemma_assoc_get_skip(self@, name@, self@.len() as int);
        }
        None
    }
}

impl RequirementMap {
    /// An empty map.
    pub fn new() -> (r: RequirementMap)
        ensures
            r@ == Seq::<(Seq<char>, Seq<ReqModel>)>::empty(),
    {
        let r = RequirementMap(Vec::new());
        proof {
            assert(r@ =~= Seq::<(Seq<char>, Seq<ReqModel>)>::empty());
        }
        r
    }

    /// The number of groups in the map.
    pub fn len(&self) -> (r: usize)
        ensures
            r == self@.len(),
    {
        self.0.len()
    }

    /// The name of the group at a position.
    pub fn key_at(&self, i: usize) -> (r: &String)
        requires
            i < self@.len(),
        ensures
            r@ == self@[i as int].0,
    {
        &self.0[i].0
    }

    /// The requirements of the named group, by exact key.
    pub fn get(&self, name: &str) -> (r: Option<&Vec<Requirement>>)
        ensures
            match r {
                Some(v) => assoc_get(self@, name@) == Some(v.deep_view()),
                None => assoc_get(self@, name@) is None,
            },
    {
        let key: String = name.to_owned();
        let mut i: usize = 0;
        while i < self.0.len()
            invariant
                i <= self@.len(),
                key@ == name@,
                forall|j: int| 0 <= j < i ==> self@[j].0 != name@,
            decreases self@.len() - i,
        {
            if self.0[i].0 == key {
                proof {
                    lemma_assoc_get_skip(self@, name@, i as int);
                    assert(self@.skip(i as int)[0] == self@[i as int]);
                }
                return Some(&self.0[i].1);
            }
            i = i + 1;
        }
        proof {
            lemma_assoc_get_skip(self@, name@, self@.len() as int);
        }
        None
    }

    /// Whether the named group is present, by exact key.
    pub fn contains_key(&self, name: &str) -> (r: bool)
        ensures
            r == assoc_has(self@, name@),
    {
        self.get(name).is_some()
    }

    /// Bind a group name to a requirement list: the value is replaced in
    /// place if the key is present, and a new pair is appended otherwise.
    pub fn insert(&mut self, name: String, value: Vec<Requirement>)
        ensures
            final(self)@ == assoc_insert(old(self)@, name@, value.deep_view()),
    {
        let ghost gname = name@;
        let ghost gvalue = value.deep_view();
        let key: String = name.clone();
        let mut i: usize = 0;
        while i < self.0.len()
            invariant
                i <= self@.len(),
                key@ == gname,
                name@ == gname,
                value.deep_view() == gvalue,
                self@ == old(self)@,
                self.0 == old(self).0,
                forall|j: int| 0 <= j < i ==> self@[j].0 != gname,
            decreases self@.len() - i,
        {
            if self.0[i].0 == key {
                proof {
                    lemma_assoc_insert_found(old(self)@, gname, gvalue, i as int);
                }
                let stored = self.0[i].0.clone();
                proof {
                    assert(stored@ == old(self)@[i as int].0);
                }
                let pair = (stored, value);
                proof {
                    assert(pair.1.deep_view() == gvalue);
                    assert(pair.0@ == old(self)@[i as int].0);
                }
                self.0.set(i, pair);
                proof {
                    let ghost before = old(self).0@;
                    let ghost after = self.0@;
                    assert(after == before.update(i as int, pair));
                    assert(after.len() == before.len());
                    assert forall|j: int| 0 <= j < after.len() && j != i implies self@[j] == old(
                        self,
                    )@[j] by {
                        assert(after[j] == before[j]);
                    }
                    assert(self@[i as int] == after[i as int].deep_view());
                    assert(after[i as int].1.deep_view() == gvalue);
                    assert(self@ =~= old(self)@.update(
                        i as int,
                        (old(self)@[i as int].0, gvalue),
                    ));
                }
                return ;
            }
            i = i + 1;
        }
        proof {
            lemma_assoc_insert_absent(old(self)@, gname, gvalue);
        }
        self.0.push((name, value));
        proof {
            assert(self@ =~= old(self)@.push((gname, gvalue)));
        }
    }
}

/// Inserting over the first entry bound to `k` replaces its value in place.
pub proof fn lemma_assoc_insert_found<V>(m: Seq<(Seq<char>, V)>, k: Seq<char>, v: V, i: int)
    requires
        0 <= i < m.len(),
        forall|j: int| 0 <= j < i ==> m[j].0 != k,
        m[i].0 == k,
    ensures
        assoc_insert(m, k, v) == m.update(i, (m[i].0, v)),
    decreases i,
{
    if i == 0 {
        assert(assoc_insert(m, k, v) =~= m.update(0, (m[0].0, v)));
    } else {
        assert(m[0].0 != k);
        lemma_assoc_insert_found(m.drop_first(), k, v, i - 1);
        assert(forall|j: int|
            0 <= j < i - 1 ==> m.drop_first()[j].0 == m[j + 1].0 && m[j + 1].0 != k);
        assert(m.drop_first()[i - 1] == m[i]);
        assert(assoc_insert(m, k, v) == seq![m[0]] + assoc_insert(m.drop_first(), k, v));
        assert(seq![m[0]] + m.drop_first().update(i - 1, (m[i].0, v)) =~= m.update(
            i,
            (m[i].0, v),
        ));
    }
}

/// Inserting an absent key appends a new pair.
pub proof fn lemma_assoc_insert_absent<V>(m: Seq<(Seq<char>, V)>, k: Seq<char>, v: V)
    requires
        forall|j: int| 0 <= j < m.len() ==> m[j].0 != k,
    ensures
        assoc_insert(m, k, v) == m.push((k, v)),
    decreases m.len(),
{
    if m.len() == 0 {
        assert(assoc_insert(m, k, v) =~= m.push((k, v)));
    } else {
        assert(m[0].0 != k);
        lemma_assoc_insert_absent(m.drop_first(), k, v);
        assert(forall|j: int|
            0 <= j < m.drop_first().len() ==> m.drop_first()[j].0 == m[j + 1].0 && m[j + 1].0 != k);
        assert(assoc_insert(m, k, v) == seq![m[0]] + assoc_insert(m.drop_first(), k, v));
        assert(seq![m[0]] + m.drop_first().push((k, v)) =~= m.push((k, v)));
    }
}

/// Optional dependencies and dependency groups resolved into flat lists of
/// requirements that are not self-referential.
///
/// `project.name` is required to resolve self-referential optional
/// dependencies.
#[derive(Debug)]
pub struct ResolvedDependencies {
    pub optional_dependencies: RequirementMap,
    pub dependency_groups: RequirementMap,
}

impl Default for ResolvedDependencies {
    /// Two empty maps.
    fn default() -> (r: ResolvedDependencies)
        ensures
            r.optional_dependencies@ == Seq::<(Seq<char>, Seq<ReqModel>)>::empty(),
            r.dependency_groups@ == Seq::<(Seq<char>, Seq<ReqModel>)>::empty(),
    {
        ResolvedDependencies {
            optional_dependencies: RequirementMap::new(),
            dependency_groups: RequirementMap::new(),
        }
    }
}

/// The `[build-system]` section of a pyproject.toml as specified in PEP 517.
#[derive(Debug)]
pub struct BuildSystem {
    /// PEP 508 dependencies required to execute the build system.
    pub requires: Vec<Requirement>,
    /// A string naming a Python object that will be used to perform the build.
    pub build_backend: Option<String>,
    /// Directories holding in-tree backend code.
    pub backend_path: Option<Vec<String>>,
}

/// The full description of the project (i.e. the README).
#[derive(Debug)]
pub enum ReadMe {
    /// Relative path to a text file containing the full description.
    RelativePath(String),
    /// Detailed readme information.
    Table {
        /// A relative path to a file containing the full description.
        file: Option<String>,
        /// Full description.
        text: Option<String>,
        /// The content-type of the full description.
        content_type: Option<String>,
    },
}

/// The optional `project.license` key.
#[derive(Debug)]
pub enum License {
    /// An SPDX expression.
    Spdx(String),
    Text {
        /// The full text of the license.
        text: String,
    },
    File {
        /// The path of the file containing the license text.
        file: String,
    },
}

/// A `project.authors` or `project.maintainers` entry: at least one of a
/// name and an email address.
#[derive(Debug)]
pub enum Contact {
    NameEmail { name: String, email: String },
    Name { name: String },
    Email { email: String },
}

impl Contact {
    /// Returns the name of the contact, and nothing for an email-only entry.
    pub fn name(&self) -> (r: Option<&str>)
        ensures
            match self {
                Contact::NameEmail { name, .. } => r matches Some(s) && s@ == name@,
                Contact::Name { name } => r matches Some(s) && s@ == name@,
                Contact::Email { .. } => r is None,
            },
    {
        match self {
            Contact::NameEmail { name, .. } => Some(name.as_str()),
            Contact::Name { name } => Some(name.as_str()),
            Contact::Email { .. } => None,
        }
    }

    /// Returns the email of the contact, and nothing for a name-only entry.
    pub fn email(&self) -> (r: Option<&str>)
        ensures
            match self {
                Contact::NameEmail { email, .. } => r matches Some(s) && s@ == email@,
                Contact::Email { email } => r matches Some(s) && s@ == email@,
                Contact::Name { .. } => r is None,
            },
    {
        match self {
            Contact::NameEmail { email, .. } => Some(email.as_str()),
            Contact::Email { email } => Some(email.as_str()),
            Contact::Name { .. } => None,
        }
    }
}

/// PEP 621 project metadata, with outside value types carried as plain
/// strings; parsing them is the manifest layer's concern.
#[derive(Debug)]
pub struct Project {
    /// The name of the project.
    pub name: String,
    /// The version of the project as supported by PEP 440.
    pub version: Option<String>,
    /// The summary description of the project.
    pub description: Option<String>,
    /// The full description of the project (i.e. the README).
    pub readme: Option<ReadMe>,
    /// The Python version requirements of the project.
    pub requires_python: Option<String>,
    /// The license under which the project is distributed.
    pub license: Option<License>,
    /// Paths of files with licenses and other legal notices, from the
    /// provisional PEP 639.
    pub license_files: Option<Vec<String>>,
    /// The people or organizations considered to be the authors.
    pub authors: Option<Vec<Contact>>,
    /// Similar to authors, open to interpretation.
    pub maintainers: Option<Vec<Contact>>,
    /// The keywords for the project.
    pub keywords: Option<Vec<String>>,
    /// Trove classifiers which apply to the project.
    pub classifiers: Option<Vec<String>>,
    /// An ordered table of labelled URLs.
    pub urls: Option<Vec<(String, String)>>,
    /// Entry points, grouped by entry point group.
    pub entry_points: Option<Vec<(String, Vec<(String, String)>)>>,
    /// Corresponds to the console_scripts group in the core metadata.
    pub scripts: Option<Vec<(String, String)>>,
    /// Corresponds to the gui_scripts group in the core metadata.
    pub gui_scripts: Option<Vec<(String, String)>>,
    /// Project dependencies.
    pub dependencies: Option<Vec<Requirement>>,
    /// Optional dependencies, keyed by extra name.
    pub optional_dependencies: Option<OptionalDependencies>,
    /// Fields intentionally unspecified, for another tool to provide.
    pub dynamic: Option<Vec<String>>,
}

impl Project {
    /// Initializes the only mandatory PEP 621 field (`name`) and leaves
    /// everything else empty.
    pub fn new(name: String) -> (r: Project)
        ensures
            r.name@ == name@,
            r.version is None,
            r.description is None,
            r.readme is None,
            r.requires_python is None,
            r.license is None,
            r.license_files is None,
            r.authors is None,
            r.maintainers is None,
            r.keywords is None,
            r.classifiers is None,
            r.urls is None,
            r.entry_points is None,
            r.scripts is None,
            r.gui_scripts is None,
            r.dependencies is None,
            r.optional_dependencies is None,
            r.dynamic is None,
    {
        Project {
            name,
            version: None,
            description: None,
            readme: None,
            requires_python: None,
            license: None,
            license_files: None,
            authors: None,
            maintainers: None,
            keywords: None,
            classifiers: None,
            urls: None,
            entry_points: None,
            scripts: None,
            gui_scripts: None,
            dependencies: None,
            optional_dependencies: None,
            dynamic: None,
        }
    }
}

/// A pyproject.toml as specified in PEP 517, restricted to the tables this
/// library reads.
#[derive(Debug)]
pub struct PyProjectToml {
    /// Build-related data.
    pub build_system: Option<BuildSystem>,
    /// Project metadata.
    pub project: Option<Project>,
    /// The dependency groups table.
    pub dependency_groups: Option<DependencyGroups>,
}

} // verus!
