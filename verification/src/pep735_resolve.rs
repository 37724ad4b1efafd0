//! Per-table resolution of PEP 735 dependency groups and PEP 621 optional
//! dependencies, with the error texts those specifications describe.

use vstd::prelude::*;

use crate::assoc_get;
use crate::resolution::s_extra;
use crate::resolution::s_group;
use crate::resolution::s_opt_keys;
use crate::resolution::s_grp_keys;
use crate::resolution::core_resolve_extra;
use crate::resolution::core_resolve_group;
use crate::resolution::lemma_norm_get_key;
use crate::resolution::lemma_assoc_get_key;
use crate::resolution::proj_view;
use crate::resolution::CoreError;
use crate::resolution::ErrModel;
use crate::resolution::ExtraOut;
use crate::resolution::GroupOut;
use crate::resolution::OptPassOut;
use crate::resolution::GrpPassOut;
use crate::resolution::Item;
use crate::resolution::ItemModel;
use crate::resolution::item_name;
use crate::ReqModel;

verus! {

/// A cycle in the recursion: the bare group names of the ancestor stack
/// at the moment a reference back into it was discovered.
#[derive(Debug)]
pub struct Cycle(pub Vec<String>);

impl View for Cycle {
    type V = Seq<Seq<char>>;

    open spec fn view(&self) -> Seq<Seq<char>> {
        self.0.deep_view()
    }
}

/// The names of the stack from position `k` on, each backticked and
/// preceded by an arrow.
pub open spec fn name_arrows_from(names: Seq<Seq<char>>, k: int) -> Seq<char>
    decreases names.len() - k,
    when 0 <= k <= names.len()
{
    if k >= names.len() {
        Seq::<char>::empty()
    } else {
        " -> `"@ + names[k] + "`"@ + name_arrows_from(names, k + 1)
    }
}

/// A cycle rendered as `` `a` -> `b` -> `a` ``: the stack in discovery
/// order, with the first name repeated at the end; an empty stack renders
/// empty.
pub open spec fn backtick_cycle_text(names: Seq<Seq<char>>) -> Seq<char> {
    if names.len() == 0 {
        Seq::<char>::empty()
    } else {
        "`"@ + names[0] + "`"@ + name_arrows_from(names, 1) + " -> `"@ + names[0] + "`"@
    }
}

impl Cycle {
    /// The cycle as `` `a` -> `b` -> `a` ``.
    pub fn message(&self) -> (r: String)
        ensures
            r@ == backtick_cycle_text(self@),
    {
        let ghost dv = self@;
        if self.0.len() == 0 {
            let r = String::new();
            proof {
                assert(r@ =~= backtick_cycle_text(dv));
            }
            return r;
        }
        let mut s: String = "`".to_owned();
        s.append(self.0[0].as_str());
        s.append("`");
        let mut i: usize = 1;
        proof {
            assert(self.0@[0]@ == dv[0]);
            assert(s@ =~= "`"@ + dv[0] + "`"@);
        }
        while i < self.0.len()
            invariant
                1 <= i <= self.0.len(),
                self@ == dv,
                dv.len() == self.0@.len(),
                s@ + name_arrows_from(dv, i as int) == "`"@ + dv[0] + "`"@ + name_arrows_from(
                    dv,
                    1,
                ),
            decreases self.0.len() - i,
        {
            let ghost s_before = s@;
            s.append(" -> `");
            s.append(self.0[i].as_str());
            s.append("`");
            proof {
                assert(self.0@[i as int]@ == dv[i as int]);
                assert(s@ =~= s_before + (" -> `"@ + dv[i as int] + "`"@));
            }
            i = i + 1;
        }
        s.append(" -> `");
        let first = self.0[0].clone();
        s.append(first.as_str());
        s.append("`");
        proof {
            assert(name_arrows_from(dv, dv.len() as int) =~= Seq::<char>::empty());
            assert(s@ =~= backtick_cycle_text(dv));
        }
        s
    }
}

/// The value a [`RecursionResolutionError`] carries.
pub ghost enum RecModel {
    GroupNotFound { kind: Seq<char>, name: Seq<char>, referrer: Seq<char> },
    DependencyGroupCycle { table: Seq<char>, names: Seq<Seq<char>> },
}

/// The wording for a reference's group kind: how the missing-group error
/// names the table the reference points into.
pub open spec fn group_kind_text(it: ItemModel) -> Seq<char> {
    match it {
        ItemModel::Extra(_) => "optional dependency group"@,
        ItemModel::Group(_) => "dependency group"@,
    }
}

/// The manifest table a reference points into.
pub open spec fn table_name_text(it: ItemModel) -> Seq<char> {
    match it {
        ItemModel::Extra(_) => "project.optional-dependencies"@,
        ItemModel::Group(_) => "dependency-groups"@,
    }
}

/// The public error value a resolution failure maps to: a missing group
/// keeps its kind wording, its name and its referrer's bare name; a cycle
/// keeps the table it was found in and the bare names of the stack.
pub open spec fn rec_of_err(e: ErrModel) -> RecModel {
    match e {
        ErrModel::OptionalNotFound { name, referrer } => RecModel::GroupNotFound {
            kind: group_kind_text(ItemModel::Extra(name)),
            name,
            referrer: item_name(referrer),
        },
        ErrModel::GroupNotFound { name, referrer } => RecModel::GroupNotFound {
            kind: group_kind_text(ItemModel::Group(name)),
            name,
            referrer: item_name(referrer),
        },
        ErrModel::CycleFound { at, stack } => RecModel::DependencyGroupCycle {
            table: table_name_text(at),
            names: stack.map_values(|it: ItemModel| item_name(it)),
        },
    }
}

/// The exact message each error renders to.
pub open spec fn rec_text(m: RecModel) -> Seq<char> {
    match m {
        RecModel::GroupNotFound { kind, name, referrer } => "Failed to find "@ + kind + " `"@
            + name + "` included by `"@ + referrer + "`"@,
        RecModel::DependencyGroupCycle { table, names } => "Detected a cycle in `"@ + table
            + "`: "@ + backtick_cycle_text(names),
    }
}

/// An error resolving dependency groups or optional dependencies: a
/// reference to a group that does not exist, or a reference cycle.
#[derive(Debug)]
pub enum RecursionResolutionError {
    /// The kind wording, the missing group's name, and the name of the
    /// group that referenced it.
    GroupNotFound(String, String, String),
    /// The table the cycle was found in, and the cycle itself.
    DependencyGroupCycle(String, Cycle),
}

impl View for RecursionResolutionError {
    type V = RecModel;

    open spec fn view(&self) -> RecModel {
        match self {
            RecursionResolutionError::GroupNotFound(kind, name, referrer) =>
                RecModel::GroupNotFound { kind: kind@, name: name@, referrer: referrer@ },
            RecursionResolutionError::DependencyGroupCycle(table, cycle) =>
                RecModel::DependencyGroupCycle { table: table@, names: cycle@ },
        }
    }
}

impl RecursionResolutionError {
    /// The user-facing message of this failure.
    pub fn message(&self) -> (r: String)
        ensures
            r@ == rec_text(self@),
    {
        match self {
            RecursionResolutionError::GroupNotFound(kind, name, referrer) => {
                let mut s: String = "Failed to find ".to_owned();
                s.append(kind.as_str());
                s.append(" `");
                s.append(name.as_str());
                s.append("` included by `");
                s.append(referrer.as_str());
                s.append("`");
                s
            },
            RecursionResolutionError::DependencyGroupCycle(table, cycle) => {
                let mut s: String = "Detected a cycle in `".to_owned();
                s.append(table.as_str());
                s.append("`: ");
                let cm = cycle.message();
                s.append(cm.as_str());
                s
            },
        }
    }
}

/// The bare names of a stack of references.
fn item_names(v: &Vec<Item>) -> (r: Vec<String>)
    ensures
        r.deep_view() == v.deep_view().map_values(|it: ItemModel| item_name(it)),
{
    let mut r: Vec<String> = Vec::new();
    let mut i: usize = 0;
    while i < v.len()
        invariant
            i <= v.len(),
            r@.len() == i,
            forall|k: int| 0 <= k < i ==> r@[k]@ == item_name(v@[k]@),
        decreases v.len() - i,
    {
        let name = v[i].name().clone();
        r.push(name);
        i = i + 1;
    }
    proof {
        assert(r.deep_view() =~= v.deep_view().map_values(|it: ItemModel| item_name(it)));
    }
    r
}

/// Map an internal failure to the public error value, with the kind and
/// table wordings of the table the failing reference points into.
fn from_core_recursion(e: CoreError) -> (r: RecursionResolutionError)
    ensures
        r@ == rec_of_err(e@),
{
    match e {
        CoreError::NotFound { item, referrer } => {
            let kind: String = match &item {
                Item::Extra(_) => "optional dependency group".to_owned(),
                Item::Group(_) => "dependency group".to_owned(),
            };
            let name = match item {
                Item::Extra(n) => n,
                Item::Group(n) => n,
            };
            let referrer_name = referrer.name().clone();
            RecursionResolutionError::GroupNotFound(kind, name, referrer_name)
        },
        CoreError::CycleHit { at, stack } => {
            let table: String = match &at {
                Item::Extra(_) => "project.optional-dependencies".to_owned(),
                Item::Group(_) => "dependency-groups".to_owned(),
            };
            let names = item_names(&stack);
            RecursionResolutionError::DependencyGroupCycle(table, Cycle(names))
        },
    }
}

impl crate::OptionalDependencies {
    /// Resolve self-references in optional dependencies into flat
    /// requirement lists, one per extra, in table order.
    ///
    /// If the project name is absent, self-referential extras are not
    /// expanded and every requirement is returned as written. An error is
    /// reported if a referenced extra does not exist or the references
    /// form a cycle.
    pub fn resolve(&self, project_name: Option<&str>) -> (r: Result<
        crate::RequirementMap,
        RecursionResolutionError,
    >)
        ensures
            match s_opt_keys(
                self@,
                0,
                Seq::<(Seq<char>, Seq<ReqModel>)>::empty(),
                proj_view(project_name),
            ) {
                OptPassOut::Done { ropt } => r matches Ok(m) && m@ == ropt,
                OptPassOut::Fail { err } => r matches Err(e) && e@ == rec_of_err(err),
            },
    {
        let ghost t_v = self@;
        let ghost projv = proj_view(project_name);
        let mut resolved = crate::ResolvedDependencies::default();
        proof {
            assert(resolved.optional_dependencies@ =~= Seq::<(Seq<char>, Seq<ReqModel>)>::empty());
        }
        let mut i: usize = 0;
        while i < self.len()
            invariant
                i <= self@.len(),
                t_v == self@,
                projv == proj_view(project_name),
                s_opt_keys(t_v, 0, Seq::<(Seq<char>, Seq<ReqModel>)>::empty(), projv)
                    == s_opt_keys(t_v, i as int, resolved.optional_dependencies@, projv),
            decreases self@.len() - i,
        {
            let key = self.key_at(i);
            proof {
                lemma_norm_get_key(t_v, i as int);
            }
            let mut parents: Vec<Item> = Vec::new();
            proof {
                assert(parents.deep_view() =~= Seq::<ItemModel>::empty());
            }
            let ghost st = parents.deep_view();
            let outcome = core_resolve_extra(
                key.as_str(),
                self,
                &mut resolved,
                &mut parents,
                project_name,
                Ghost(st),
            );
            match outcome {
                Ok(_) => {},
                Err(ce) => {
                    return Err(from_core_recursion(ce));
                },
            }
            i = i + 1;
        }
        proof {
            assert(s_opt_keys(t_v, t_v.len() as int, resolved.optional_dependencies@, projv)
                == (OptPassOut::Done { ropt: resolved.optional_dependencies@ }));
        }
        Ok(resolved.optional_dependencies)
    }
}

impl crate::DependencyGroups {
    /// Resolve include groups and self-references in dependency groups
    /// into flat requirement lists, one per group, in table order.
    ///
    /// Self-referential extras are resolved against the given
    /// optional-dependencies table; if the project name is absent, they
    /// are not expanded. An error is reported if a referenced group does
    /// not exist or the references form a cycle. Optional-dependency
    /// names never appear as keys of the result.
    pub fn resolve(&self, optional_dependencies: &crate::OptionalDependencies, project_name: Option<
        &str,
    >) -> (r: Result<crate::RequirementMap, RecursionResolutionError>)
        ensures
            match s_grp_keys(
                optional_dependencies@,
                self@,
                0,
                Seq::<(Seq<char>, Seq<ReqModel>)>::empty(),
                Seq::<(Seq<char>, Seq<ReqModel>)>::empty(),
                proj_view(project_name),
            ) {
                GrpPassOut::Done { ropt, rgrp } => r matches Ok(m) && m@ == rgrp,
                GrpPassOut::Fail { err } => r matches Err(e) && e@ == rec_of_err(err),
            },
    {
        let ghost t_v = optional_dependencies@;
        let ghost g_v = self@;
        let ghost projv = proj_view(project_name);
        let mut resolved = crate::ResolvedDependencies::default();
        proof {
            assert(resolved.optional_dependencies@ =~= Seq::<(Seq<char>, Seq<ReqModel>)>::empty());
            assert(resolved.dependency_groups@ =~= Seq::<(Seq<char>, Seq<ReqModel>)>::empty());
        }
        let mut i: usize = 0;
        while i < self.len()
            invariant
                i <= self@.len(),
                t_v == optional_dependencies@,
                g_v == self@,
                projv == proj_view(project_name),
                s_grp_keys(
                    t_v,
                    g_v,
                    0,
                    Seq::<(Seq<char>, Seq<ReqModel>)>::empty(),
                    Seq::<(Seq<char>, Seq<ReqModel>)>::empty(),
                    projv,
                ) == s_grp_keys(
                    t_v,
                    g_v,
                    i as int,
                    resolved.optional_dependencies@,
                    resolved.dependency_groups@,
                    projv,
                ),
            decreases self@.len() - i,
        {
            let key = self.key_at(i);
            proof {
                lemma_assoc_get_key(g_v, i as int);
            }
            let mut parents: Vec<Item> = Vec::new();
            proof {
                assert(parents.deep_view() =~= Seq::<ItemModel>::empty());
            }
            let ghost st = parents.deep_view();
            let outcome = core_resolve_group(
                key.as_str(),
                optional_dependencies,
                self,
                &mut resolved,
                &mut parents,
                project_name,
                Ghost(st),
            );
            match outcome {
                Ok(_) => {},
                Err(ce) => {
                    return Err(from_core_recursion(ce));
                },
            }
            i = i + 1;
        }
        proof {
            assert(s_grp_keys(
                t_v,
                g_v,
                g_v.len() as int,
                resolved.optional_dependencies@,
                resolved.dependency_groups@,
                projv,
            ) == (GrpPassOut::Done {
                ropt: resolved.optional_dependencies@,
                rgrp: resolved.dependency_groups@,
            }));
        }
        Ok(resolved.dependency_groups)
    }
}

} // verus!
