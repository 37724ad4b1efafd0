//! Resolution of optional-dependency extras and dependency groups into
//! flat requirement lists.
//!
//! The resolver walks the reference graph recursively, memoizing each
//! resolved group, detecting reference cycles with an ancestor stack, and
//! reporting undefined references together with their immediate referrer.

use vstd::prelude::*;

use crate::push_char;
use crate::ReqModel;
use crate::assoc_get;
use crate::assoc_insert;
use crate::Requirement;
use crate::clone_requirements;

verus! {

/// A reference to either an optional dependency (extra) or a dependency
/// group, so that identically named groups in the two tables are tracked
/// independently.
#[derive(Debug)]
pub enum Item {
    Extra(String),
    Group(String),
}

/// The mathematical value of an [`Item`].
pub ghost enum ItemModel {
    Extra(Seq<char>),
    Group(Seq<char>),
}

impl View for Item {
    type V = ItemModel;

    open spec fn view(&self) -> ItemModel {
        match self {
            Item::Extra(n) => ItemModel::Extra(n@),
            Item::Group(n) => ItemModel::Group(n@),
        }
    }
}

impl DeepView for Item {
    type V = ItemModel;

    open spec fn deep_view(&self) -> ItemModel {
        self.view()
    }
}

impl Clone for Item {
    fn clone(&self) -> (r: Item)
        ensures
            r@ == self@,
    {
        match self {
            Item::Extra(n) => Item::Extra(n.clone()),
            Item::Group(n) => Item::Group(n.clone()),
        }
    }
}

impl PartialEq for Item {
    fn eq(&self, other: &Item) -> (r: bool)
        ensures
            r == (self@ == other@),
    {
        match (self, other) {
            (Item::Extra(a), Item::Extra(b)) => *a == *b,
            (Item::Group(a), Item::Group(b)) => *a == *b,
            _ => false,
        }
    }
}

impl vstd::std_specs::cmp::PartialEqSpecImpl for Item {
    open spec fn obeys_eq_spec() -> bool {
        true
    }

    open spec fn eq_spec(&self, other: &Item) -> bool {
        self@ == other@
    }
}

impl Eq for Item {}

impl Item {
    /// The tagged rendering of the reference, `extra:name` or `group:name`.
    pub fn label(&self) -> (r: String)
        ensures
            r@ == item_label(self@),
    {
        match self {
            Item::Extra(n) => {
                let mut s: String = "extra:".to_owned();
                s.append(n.as_str());
                s
            },
            Item::Group(n) => {
                let mut s: String = "group:".to_owned();
                s.append(n.as_str());
                s
            },
        }
    }

    /// The bare name of the referenced group, without its table tag.
    pub fn name(&self) -> (r: &String)
        ensures
            r@ == item_name(self@),
    {
        match self {
            Item::Extra(n) => n,
            Item::Group(n) => n,
        }
    }
}

/// The tagged rendering of a reference, `extra:name` or `group:name`.
pub open spec fn item_label(it: ItemModel) -> Seq<char> {
    match it {
        ItemModel::Extra(n) => "extra:"@ + n,
        ItemModel::Group(n) => "group:"@ + n,
    }
}

/// The bare name of a reference, without its table tag.
pub open spec fn item_name(it: ItemModel) -> Seq<char> {
    match it {
        ItemModel::Extra(n) => n,
        ItemModel::Group(n) => n,
    }
}

/// Whether a character counts as a separator under the PEP 685 extra-name
/// normalization rule.
pub open spec fn is_name_sep(c: char) -> bool {
    c == '.' || c == '_' || c == '-'
}

/// An ASCII upper-case letter folded to lower case; any other character is
/// kept as it is. PEP 508 names are ASCII, so this is the case fold the
/// normalization rule asks for.
pub open spec fn fold_char(c: char) -> char {
    if 'A' <= c && c <= 'Z' {
        ((c as u32) + 32) as char
    } else {
        c
    }
}

/// The normalized remainder of a name: `sep_pending` records whether the
/// previous character was part of a separator run that still has to emit
/// its single `-`.
pub open spec fn normalize_rest(s: Seq<char>, sep_pending: bool) -> Seq<char>
    decreases s.len(),
{
    if s.len() == 0 {
        Seq::<char>::empty()
    } else if is_name_sep(s[0]) {
        if sep_pending {
            normalize_rest(s.drop_first(), true)
        } else {
            seq!['-'] + normalize_rest(s.drop_first(), true)
        }
    } else {
        seq![fold_char(s[0])] + normalize_rest(s.drop_first(), false)
    }
}

/// A name normalized per PEP 685: case-folded, with every maximal run of
/// `.`, `_` and `-` collapsed into a single `-`.
pub open spec fn normalized(s: Seq<char>) -> Seq<char> {
    normalize_rest(s, false)
}

/// Normalize a group or extra name per PEP 685, so that differently
/// spelled references to the same extra match.
pub fn normalize_name(name: &str) -> (r: String)
    ensures
        r@ == normalized(name@),
{
    let n = name.unicode_len();
    let mut out = String::new();
    let mut sep_pending = false;
    let mut i: usize = 0;
    proof {
        assert(name@.skip(0) =~= name@);
        assert(out@ + normalize_rest(name@, false) =~= normalize_rest(name@, false));
    }
    while i < n
        invariant
            i <= n,
            n == name@.len(),
            out@ + normalize_rest(name@.skip(i as int), sep_pending) == normalized(name@),
        decreases n - i,
    {
        let c = name.get_char(i);
        proof {
            assert(name@.skip(i as int)[0] == name@[i as int]);
            assert(name@.skip(i as int).drop_first() =~= name@.skip(i as int + 1));
        }
        let v: u32 = c as u32;
        if v == 46 || v == 95 || v == 45 {
            proof {
                assert(c == '.' || c == '_' || c == '-');
            }
            if !sep_pending {
                push_char(&mut out, '-');
                proof {
                    assert(out@ + normalize_rest(name@.skip(i as int + 1), true) == normalized(
                        name@,
                    ));
                }
            }
            sep_pending = true;
        } else {
            proof {
                assert(!is_name_sep(c));
            }
            if 65 <= v && v <= 90 {
                let lowered: u8 = (v + 32) as u8;
                proof {
                    assert(((v + 32) as u8) as u32 == v + 32) by (bit_vector)
                        requires
                            65 <= v && v <= 90,
                    ;
                    assert(lowered as u32 == v + 32);
                    assert((lowered as char) as u32 == v + 32);
                    assert(fold_char(c) == (lowered as char));
                }
                push_char(&mut out, lowered as char);
            } else {
                proof {
                    assert(fold_char(c) == c);
                }
                push_char(&mut out, c);
            }
            sep_pending = false;
            proof {
                assert(out@ + normalize_rest(name@.skip(i as int + 1), false) == normalized(
                    name@,
                ));
            }
        }
        i = i + 1;
    }
    proof {
        assert(name@.skip(n as int) =~= Seq::<char>::empty());
        assert(out@ + Seq::<char>::empty() =~= out@);
    }
    out
}

/// First row of an optional-dependencies table whose key normalizes like
/// `k`, per the PEP 685 rule.
pub open spec fn norm_get(t: Seq<(Seq<char>, Seq<ReqModel>)>, k: Seq<char>) -> Option<
    Seq<ReqModel>,
>
    decreases t.len(),
{
    if t.len() == 0 {
        None
    } else if normalized(t[0].0) == normalized(k) {
        Some(t[0].1)
    } else {
        norm_get(t.drop_first(), k)
    }
}

/// The normalized lookup is unchanged by dropping a prefix of rows whose
/// keys normalize differently.
pub proof fn lemma_norm_get_skip(t: Seq<(Seq<char>, Seq<ReqModel>)>, k: Seq<char>, i: int)
    requires
        0 <= i <= t.len(),
        forall|j: int| 0 <= j < i ==> normalized(#[trigger] t[j].0) != normalized(k),
    ensures
        norm_get(t, k) == norm_get(t.skip(i), k),
    decreases i,
{
    if i > 0 {
        assert(t.len() > 0);
        assert(normalized(t[0].0) != normalized(k));
        assert(t.drop_first().skip(i - 1) =~= t.skip(i));
        assert(forall|j: int|
            0 <= j < i - 1 ==> #[trigger] t.drop_first()[j].0 == t[j + 1].0);
        lemma_norm_get_skip(t.drop_first(), k, i - 1);
    } else {
        assert(t.skip(0) =~= t);
    }
}

/// The references an extra's requirement rows can make: one tagged item
/// per declared extra of each requirement.
pub open spec fn reqs_items(rs: Seq<ReqModel>) -> Seq<ItemModel>
    decreases rs.len(),
{
    if rs.len() == 0 {
        Seq::<ItemModel>::empty()
    } else {
        rs[0].extras.map_values(|e: Seq<char>| ItemModel::Extra(e)) + reqs_items(rs.drop_first())
    }
}

/// Every extra name an optional-dependencies table mentions, as a tagged
/// item: its keys and the extras of every requirement row.
pub open spec fn opt_items(t: Seq<(Seq<char>, Seq<ReqModel>)>) -> Seq<ItemModel>
    decreases t.len(),
{
    if t.len() == 0 {
        Seq::<ItemModel>::empty()
    } else {
        seq![ItemModel::Extra(t[0].0)] + reqs_items(t[0].1) + opt_items(t.drop_first())
    }
}

/// Membership in a concatenation, from the left part.
pub proof fn lemma_contains_app_l<T>(a: Seq<T>, b: Seq<T>, x: T)
    requires
        a.contains(x),
    ensures
        (a + b).contains(x),
{
    let i = choose|i: int| 0 <= i < a.len() && a[i] == x;
    assert((a + b)[i] == x);
}

/// Membership in a concatenation, from the right part.
pub proof fn lemma_contains_app_r<T>(a: Seq<T>, b: Seq<T>, x: T)
    requires
        b.contains(x),
    ensures
        (a + b).contains(x),
{
    let i = choose|i: int| 0 <= i < b.len() && b[i] == x;
    assert((a + b)[a.len() + i] == x);
}

/// Every extra declared by a row's requirements appears among the items of
/// that row.
pub open spec fn extras_in(all: Seq<ItemModel>, rs: Seq<ReqModel>) -> bool {
    forall|i: int, j: int|
        0 <= i < rs.len() && 0 <= j < rs[i].extras.len() ==> all.contains(
            ItemModel::Extra(#[trigger] rs[i].extras[j]),
        )
}

/// The requirements of a row are among the items of the row list.
pub proof fn lemma_reqs_items_member(rs: Seq<ReqModel>, i: int, j: int)
    requires
        0 <= i < rs.len(),
        0 <= j < rs[i].extras.len(),
    ensures
        reqs_items(rs).contains(ItemModel::Extra(rs[i].extras[j])),
    decreases i,
{
    let head = rs[0].extras.map_values(|e: Seq<char>| ItemModel::Extra(e));
    if i == 0 {
        assert(head[j] == ItemModel::Extra(rs[0].extras[j]));
        lemma_contains_app_l(head, reqs_items(rs.drop_first()), ItemModel::Extra(rs[0].extras[j]));
    } else {
        assert(rs.drop_first()[i - 1] == rs[i]);
        lemma_reqs_items_member(rs.drop_first(), i - 1, j);
        lemma_contains_app_r(
            head,
            reqs_items(rs.drop_first()),
            ItemModel::Extra(rs[i].extras[j]),
        );
    }
}

/// A row found by normalized lookup declares only extras mentioned by the
/// table.
pub proof fn lemma_norm_get_extras_in(t: Seq<(Seq<char>, Seq<ReqModel>)>, k: Seq<char>)
    requires
        norm_get(t, k) is Some,
    ensures
        extras_in(opt_items(t), norm_get(t, k)->Some_0),
    decreases t.len(),
{
    let rs = norm_get(t, k)->Some_0;
    if normalized(t[0].0) == normalized(k) {
        assert forall|i: int, j: int|
            0 <= i < rs.len() && 0 <= j < rs[i].extras.len() implies opt_items(t).contains(
            ItemModel::Extra(#[trigger] rs[i].extras[j]),
        ) by {
            lemma_reqs_items_member(rs, i, j);
            lemma_contains_app_l(reqs_items(t[0].1), opt_items(t.drop_first()), ItemModel::Extra(
                rs[i].extras[j],
            ));
            lemma_contains_app_r(
                seq![ItemModel::Extra(t[0].0)],
                reqs_items(t[0].1) + opt_items(t.drop_first()),
                ItemModel::Extra(rs[i].extras[j]),
            );
            assert(seq![ItemModel::Extra(t[0].0)] + (reqs_items(t[0].1) + opt_items(
                t.drop_first(),
            )) =~= opt_items(t));
        }
    } else {
        lemma_norm_get_extras_in(t.drop_first(), k);
        assert forall|i: int, j: int|
            0 <= i < rs.len() && 0 <= j < rs[i].extras.len() implies opt_items(t).contains(
            ItemModel::Extra(#[trigger] rs[i].extras[j]),
        ) by {
            assert(opt_items(t.drop_first()).contains(ItemModel::Extra(rs[i].extras[j])));
            lemma_contains_app_r(
                seq![ItemModel::Extra(t[0].0)] + reqs_items(t[0].1),
                opt_items(t.drop_first()),
                ItemModel::Extra(rs[i].extras[j]),
            );
            assert((seq![ItemModel::Extra(t[0].0)] + reqs_items(t[0].1)) + opt_items(
                t.drop_first(),
            ) =~= opt_items(t));
        }
    }
}

/// How many of the mentioned items are not yet on the ancestor stack: the
/// termination measure of the resolver.
pub open spec fn count_new(all: Seq<ItemModel>, parents: Seq<ItemModel>) -> nat
    decreases all.len(),
{
    if all.len() == 0 {
        0nat
    } else {
        (if parents.contains(all[0]) {
            0nat
        } else {
            1nat
        }) + count_new(all.drop_first(), parents)
    }
}

/// A failure of resolution.
pub ghost enum ErrModel {
    /// A reference to an optional dependency that is not a key of the
    /// optional-dependencies table.
    OptionalNotFound { name: Seq<char>, referrer: ItemModel },
    /// An include of a dependency group that is not a key of the
    /// dependency-groups table.
    GroupNotFound { name: Seq<char>, referrer: ItemModel },
    /// A reference back to a group currently being resolved: `at` is the
    /// revisited reference, `stack` the ancestor stack at discovery.
    CycleFound { at: ItemModel, stack: Seq<ItemModel> },
}

/// The outcome of resolving one extra: the flat requirement list and the
/// optional-dependencies cache after the walk, or the failure with the
/// cache and ancestor stack as the walk left them.
pub ghost enum ExtraOut {
    Done { list: Seq<ReqModel>, ropt: Seq<(Seq<char>, Seq<ReqModel>)> },
    Fail { err: ErrModel, ropt: Seq<(Seq<char>, Seq<ReqModel>)>, parents: Seq<ItemModel> },
}

/// The extras of the current requirement still to expand, for the
/// termination measure.
pub open spec fn extras_rem(reqs: Seq<ReqModel>, i: int, j: int, proj: Option<Seq<char>>) -> int {
    if 0 <= i < reqs.len() && proj == Some(reqs[i].name) && 0 <= j <= reqs[i].extras.len() {
        reqs[i].extras.len() - j
    } else {
        0
    }
}

/// Resolution of the requirement rows `reqs[i..]` of one extra, with the
/// extras of `reqs[i]` expanded from position `j` on. `acc` holds what the
/// rows before `(i, j)` produced, `ropt` the cache of already resolved
/// extras, and `parents` the ancestor stack including the extra whose rows
/// these are. A requirement whose name is the project's own name denotes
/// the extras it declares; any other requirement is appended verbatim.
pub open spec fn s_extra_entries(
    t: Seq<(Seq<char>, Seq<ReqModel>)>,
    reqs: Seq<ReqModel>,
    i: int,
    j: int,
    acc: Seq<ReqModel>,
    ropt: Seq<(Seq<char>, Seq<ReqModel>)>,
    parents: Seq<ItemModel>,
    proj: Option<Seq<char>>,
) -> ExtraOut
    decreases count_new(opt_items(t), parents), reqs.len() - i, extras_rem(reqs, i, j, proj),
    when 0 <= i <= reqs.len() && 0 <= j && extras_in(opt_items(t), reqs)
{
    if i >= reqs.len() {
        ExtraOut::Done { list: acc, ropt }
    } else {
        let r = reqs[i];
        if proj == Some(r.name) {
            if j >= r.extras.len() {
                s_extra_entries(t, reqs, i + 1, 0, acc, ropt, parents, proj)
            } else {
                let e = r.extras[j];
                match assoc_get(ropt, e) {
                    Option::Some(l) => s_extra_entries(
                        t,
                        reqs,
                        i,
                        j + 1,
                        acc + l,
                        ropt,
                        parents,
                        proj,
                    ),
                    Option::None => match norm_get(t, e) {
                        Option::None => ExtraOut::Fail {
                            err: ErrModel::OptionalNotFound { name: e, referrer: parents.last() },
                            ropt,
                            parents,
                        },
                        Option::Some(reqs2) => if parents.contains(ItemModel::Extra(e)) {
                            ExtraOut::Fail {
                                err: ErrModel::CycleFound { at: ItemModel::Extra(e), stack: parents },
                                ropt,
                                parents,
                            }
                        } else {
                            proof {
                                lemma_count_new_push(opt_items(t), parents, ItemModel::Extra(e));
                                lemma_norm_get_extras_in(t, e);
                            }
                            match s_extra_entries(
                                t,
                                reqs2,
                                0,
                                0,
                                Seq::<ReqModel>::empty(),
                                ropt,
                                parents.push(ItemModel::Extra(e)),
                                proj,
                            ) {
                                ExtraOut::Done { list: l2, ropt: ropt2 } => s_extra_entries(
                                    t,
                                    reqs,
                                    i,
                                    j + 1,
                                    acc + l2,
                                    assoc_insert(ropt2, e, l2),
                                    parents,
                                    proj,
                                ),
                                ExtraOut::Fail { err, ropt: r2, parents: p2 } => ExtraOut::Fail {
                                    err,
                                    ropt: r2,
                                    parents: p2,
                                },
                            }
                        },
                    },
                }
            }
        } else {
            s_extra_entries(t, reqs, i + 1, 0, acc.push(r), ropt, parents, proj)
        }
    }
}

/// Resolution of one extra against the optional-dependencies table: the
/// cached list if it was already resolved; the flat list of its rows with
/// every self-reference expanded, cached under the requested spelling,
/// when the walk succeeds; and the first failure otherwise. The row is
/// found by normalized name; a missing row is reported against the top of
/// the ancestor stack, and a revisit of an extra already on the stack is a
/// cycle.
pub open spec fn s_extra(
    t: Seq<(Seq<char>, Seq<ReqModel>)>,
    g: Seq<char>,
    ropt: Seq<(Seq<char>, Seq<ReqModel>)>,
    parents: Seq<ItemModel>,
    proj: Option<Seq<char>>,
) -> ExtraOut {
    match assoc_get(ropt, g) {
        Option::Some(l) => ExtraOut::Done { list: l, ropt },
        Option::None => match norm_get(t, g) {
            Option::None => ExtraOut::Fail {
                err: ErrModel::OptionalNotFound { name: g, referrer: parents.last() },
                ropt,
                parents,
            },
            Option::Some(reqs) => if parents.contains(ItemModel::Extra(g)) {
                ExtraOut::Fail {
                    err: ErrModel::CycleFound { at: ItemModel::Extra(g), stack: parents },
                    ropt,
                    parents,
                }
            } else {
                match s_extra_entries(
                    t,
                    reqs,
                    0,
                    0,
                    Seq::<ReqModel>::empty(),
                    ropt,
                    parents.push(ItemModel::Extra(g)),
                    proj,
                ) {
                    ExtraOut::Done { list, ropt: ropt1 } => ExtraOut::Done {
                        list,
                        ropt: assoc_insert(ropt1, g, list),
                    },
                    ExtraOut::Fail { err, ropt: r1, parents: p1 } => ExtraOut::Fail {
                        err,
                        ropt: r1,
                        parents: p1,
                    },
                }
            },
        },
    }
}

/// One expansion step at `(i, j)` of a self-referential row is exactly a
/// resolution of the extra it names, followed by the remaining steps.
pub proof fn lemma_extra_step(
    t: Seq<(Seq<char>, Seq<ReqModel>)>,
    reqs: Seq<ReqModel>,
    i: int,
    j: int,
    acc: Seq<ReqModel>,
    ropt: Seq<(Seq<char>, Seq<ReqModel>)>,
    parents: Seq<ItemModel>,
    proj: Option<Seq<char>>,
)
    requires
        0 <= i < reqs.len(),
        0 <= j < reqs[i].extras.len(),
        proj == Some(reqs[i].name),
        extras_in(opt_items(t), reqs),
    ensures
        s_extra_entries(t, reqs, i, j, acc, ropt, parents, proj) == (match s_extra(
            t,
            reqs[i].extras[j],
            ropt,
            parents,
            proj,
        ) {
            ExtraOut::Done { list, ropt: r2 } => s_extra_entries(
                t,
                reqs,
                i,
                j + 1,
                acc + list,
                r2,
                parents,
                proj,
            ),
            ExtraOut::Fail { err, ropt: r2, parents: p2 } => ExtraOut::Fail {
                err,
                ropt: r2,
                parents: p2,
            },
        }),
{
    let e = reqs[i].extras[j];
    match assoc_get(ropt, e) {
        Option::Some(l) => {
            assert(s_extra(t, e, ropt, parents, proj) == ExtraOut::Done { list: l, ropt });
        },
        Option::None => {
            match norm_get(t, e) {
                Option::None => {
                    assert(s_extra_entries(t, reqs, i, j, acc, ropt, parents, proj)
                        == ExtraOut::Fail {
                        err: ErrModel::OptionalNotFound { name: e, referrer: parents.last() },
                        ropt,
                        parents,
                    });
                },
                Option::Some(reqs2) => {
                    if parents.contains(ItemModel::Extra(e)) {
                        assert(s_extra_entries(t, reqs, i, j, acc, ropt, parents, proj)
                            == ExtraOut::Fail {
                            err: ErrModel::CycleFound {
                                at: ItemModel::Extra(e),
                                stack: parents,
                            },
                            ropt,
                            parents,
                        });
                    } else {
                        lemma_norm_get_extras_in(t, e);
                        let inner = s_extra_entries(
                            t,
                            reqs2,
                            0,
                            0,
                            Seq::<ReqModel>::empty(),
                            ropt,
                            parents.push(ItemModel::Extra(e)),
                            proj,
                        );
                        match inner {
                            ExtraOut::Done { list: l2, ropt: ropt2 } => {
                                assert(s_extra(t, e, ropt, parents, proj) == ExtraOut::Done {
                                    list: l2,
                                    ropt: assoc_insert(ropt2, e, l2),
                                });
                                assert(s_extra_entries(t, reqs, i, j, acc, ropt, parents, proj)
                                    == s_extra_entries(
                                    t,
                                    reqs,
                                    i,
                                    j + 1,
                                    acc + l2,
                                    assoc_insert(ropt2, e, l2),
                                    parents,
                                    proj,
                                ));
                            },
                            ExtraOut::Fail { err, ropt: r2, parents: p2 } => {
                                assert(s_extra_entries(t, reqs, i, j, acc, ropt, parents, proj)
                                    == ExtraOut::Fail { err, ropt: r2, parents: p2 });
                            },
                        }
                    }
                },
            }
        },
    }
}

/// An internal resolution failure, keeping the revisited reference of a
/// cycle so that every public error format can be rendered from it.
pub enum CoreError {
    NotFound { item: Item, referrer: Item },
    CycleHit { at: Item, stack: Vec<Item> },
}

impl View for CoreError {
    type V = ErrModel;

    open spec fn view(&self) -> ErrModel {
        match self {
            CoreError::NotFound { item, referrer } => match item@ {
                ItemModel::Extra(n) => ErrModel::OptionalNotFound { name: n, referrer: referrer@ },
                ItemModel::Group(n) => ErrModel::GroupNotFound { name: n, referrer: referrer@ },
            },
            CoreError::CycleHit { at, stack } => ErrModel::CycleFound {
                at: at@,
                stack: stack.deep_view(),
            },
        }
    }
}

/// The view of an optional project name.
pub open spec fn proj_view(p: Option<&str>) -> Option<Seq<char>> {
    match p {
        Option::Some(s) => Option::Some(s@),
        Option::None => Option::None,
    }
}

/// One extra unit of measure for a requested spelling that the table does
/// not mention and the stack does not hold yet.
pub open spec fn extra_bonus(all: Seq<ItemModel>, g: Seq<char>, parents: Seq<ItemModel>) -> int {
    if !all.contains(ItemModel::Extra(g)) && !parents.contains(ItemModel::Extra(g)) {
        1int
    } else {
        0int
    }
}

/// What resolving one extra guarantees: the call behaves exactly like its
/// mirror [`s_extra`], relating the result, the final cache and the final
/// ancestor stack to the values at entry.
pub open spec fn core_extra_post(
    t: Seq<(Seq<char>, Seq<ReqModel>)>,
    g: Seq<char>,
    ropt0: Seq<(Seq<char>, Seq<ReqModel>)>,
    ps0: Seq<ItemModel>,
    proj: Option<Seq<char>>,
    r: Result<Vec<Requirement>, CoreError>,
    ropt1: Seq<(Seq<char>, Seq<ReqModel>)>,
    ps1: Seq<ItemModel>,
) -> bool {
    match s_extra(t, g, ropt0, ps0, proj) {
        ExtraOut::Done { list, ropt } => r matches Ok(v) && v.deep_view() == list && ropt1 == ropt
            && ps1 == ps0,
        ExtraOut::Fail { err, ropt, parents } => r matches Err(e) && e@ == err && ropt1 == ropt
            && ps1 == parents,
    }
}

/// Clone a vector of items, keeping its mathematical value.
fn clone_items(v: &Vec<Item>) -> (r: Vec<Item>)
    ensures
        r.deep_view() == v.deep_view(),
{
    let mut r: Vec<Item> = Vec::new();
    let mut i: usize = 0;
    while i < v.len()
        invariant
            i <= v.len(),
            r@.len() == i,
            forall|k: int| 0 <= k < i ==> r@[k]@ == v@[k]@,
        decreases v.len() - i,
    {
        r.push(v[i].clone());
        i = i + 1;
    }
    proof {
        assert(r.deep_view() =~= v.deep_view());
    }
    r
}

/// Whether the ancestor stack already holds a reference.
fn contains_item(v: &Vec<Item>, item: &Item) -> (r: bool)
    ensures
        r == v.deep_view().contains(item@),
{
    let mut i: usize = 0;
    while i < v.len()
        invariant
            i <= v.len(),
            forall|k: int| 0 <= k < i ==> v@[k]@ != item@,
        decreases v.len() - i,
    {
        if v[i] == *item {
            proof {
                assert(v.deep_view()[i as int] == item@);
            }
            return true;
        }
        i = i + 1;
    }
    proof {
        assert forall|k: int| 0 <= k < v.deep_view().len() implies v.deep_view()[k] != item@ by {
            assert(v.deep_view()[k] == v@[k]@);
        }
    }
    false
}

/// Find the requirement rows of the extra whose key normalizes like the
/// requested name.
fn norm_find<'a>(table: &'a crate::OptionalDependencies, name: &str) -> (r: Option<
    &'a Vec<Requirement>,
>)
    ensures
        match r {
            Some(v) => norm_get(table@, name@) == Some(v.deep_view()),
            None => norm_get(table@, name@) is None,
        },
{
    let target = normalize_name(name);
    let mut i: usize = 0;
    while i < table.0.len()
        invariant
            i <= table@.len(),
            target@ == normalized(name@),
            forall|k: int| 0 <= k < i ==> normalized(#[trigger] table@[k].0) != normalized(name@),
        decreases table@.len() - i,
    {
        let key_norm = normalize_name(table.0[i].0.as_str());
        if key_norm == target {
            proof {
                lemma_norm_get_skip(table@, name@, i as int);
                assert(table@.skip(i as int)[0] == table@[i as int]);
            }
            return Some(&table.0[i].1);
        }
        i = i + 1;
    }
    proof {
        lemma_norm_get_skip(table@, name@, table@.len() as int);
    }
    None
}

/// Resolves a single optional dependency (extra) against the
/// optional-dependencies table, exactly as the mirror [`s_extra`] says:
/// the cached list on a repeated request, otherwise the flattened rows of
/// the extra with every self-reference expanded recursively, memoized in
/// `resolved.optional_dependencies` under the requested spelling.
pub(crate) fn core_resolve_extra(
    extra: &str,
    optional_dependencies: &crate::OptionalDependencies,
    resolved: &mut crate::ResolvedDependencies,
    parents: &mut Vec<Item>,
    project_name: Option<&str>,
    Ghost(stack0): Ghost<Seq<ItemModel>>,
) -> (r: Result<Vec<Requirement>, CoreError>)
    requires
        stack0 == old(parents).deep_view(),
        (assoc_get(old(resolved).optional_dependencies@, extra@) is None && norm_get(
            optional_dependencies@,
            extra@,
        ) is None) ==> old(parents)@.len() > 0,
    ensures
        final(resolved).dependency_groups@ == old(resolved).dependency_groups@,
        core_extra_post(
            optional_dependencies@,
            extra@,
            old(resolved).optional_dependencies@,
            old(parents).deep_view(),
            proj_view(project_name),
            r,
            final(resolved).optional_dependencies@,
            final(parents).deep_view(),
        ),
    decreases count_new(opt_items(optional_dependencies@), stack0) + extra_bonus(
        opt_items(optional_dependencies@),
        extra@,
        stack0,
    ),
{
    let ghost t_v = optional_dependencies@;
    let ghost ropt0 = resolved.optional_dependencies@;
    let ghost ps0 = parents.deep_view();
    let ghost projv = proj_view(project_name);

    if let Some(cached) = resolved.optional_dependencies.get(extra) {
        let out = clone_requirements(cached);
        return Ok(out);
    }
    proof {
        assert(assoc_get(ropt0, extra@) is None);
    }

    let found = norm_find(optional_dependencies, extra);
    if found.is_none() {
        proof {
            assert(parents@.len() > 0);
        }
        let referrer = parents[parents.len() - 1].clone();
        proof {
            assert(referrer@ == ps0.last());
        }
        return Err(CoreError::NotFound { item: Item::Extra(extra.to_owned()), referrer });
    }
    let reqs = found.unwrap();
    let ghost reqs_v = reqs.deep_view();

    let item = Item::Extra(extra.to_owned());
    if contains_item(parents, &item) {
        let stack = clone_items(parents);
        return Err(CoreError::CycleHit { at: item, stack });
    }

    proof {
        lemma_norm_get_extras_in(t_v, extra@);
        lemma_count_new_push(opt_items(t_v), ps0, ItemModel::Extra(extra@));
    }
    parents.push(item);
    let ghost ps1 = ps0.push(ItemModel::Extra(extra@));
    proof {
        assert(parents.deep_view() =~= ps1);
    }

    let proj_s: Option<String> = match project_name {
        Some(p) => Some(p.to_owned()),
        None => None,
    };

    let mut out: Vec<Requirement> = Vec::new();
    proof {
        assert(out.deep_view() =~= Seq::<ReqModel>::empty());
    }
    let mut i: usize = 0;
    while i < reqs.len()
        invariant
            i <= reqs.len(),
            reqs.deep_view() == reqs_v,
            t_v == optional_dependencies@,
            ropt0 == old(resolved).optional_dependencies@,
            ps0 == old(parents).deep_view(),
            stack0 == ps0,
            extras_in(opt_items(t_v), reqs_v),
            norm_get(t_v, extra@) == Some(reqs_v),
            assoc_get(ropt0, extra@) is None,
            !ps0.contains(ItemModel::Extra(extra@)),
            ps1 == ps0.push(ItemModel::Extra(extra@)),
            parents.deep_view() == ps1,
            resolved.dependency_groups@ == old(resolved).dependency_groups@,
            match (proj_s, proj_view(project_name)) {
                (Option::Some(a), Option::Some(b)) => a@ == b,
                (Option::None, Option::None) => true,
                _ => false,
            },
            projv == proj_view(project_name),
            s_extra_entries(t_v, reqs_v, 0, 0, Seq::<ReqModel>::empty(), ropt0, ps1, projv)
                == s_extra_entries(
                t_v,
                reqs_v,
                i as int,
                0,
                out.deep_view(),
                resolved.optional_dependencies@,
                ps1,
                projv,
            ),
        decreases reqs.len() - i,
    {
        let req = &reqs[i];
        let is_self = match &proj_s {
            Option::Some(ps) => req.name == *ps,
            Option::None => false,
        };
        proof {
            assert(reqs_v[i as int] == req@);
            assert(is_self == (projv == Some(reqs_v[i as int].name)));
        }
        if is_self {
            let ghost out0 = out.deep_view();
            let mut j: usize = 0;
            while j < req.extras.len()
                invariant
                    i < reqs.len(),
                    j <= req.extras.len(),
                    req@ == reqs_v[i as int],
                    reqs.deep_view() == reqs_v,
                    t_v == optional_dependencies@,
                    ropt0 == old(resolved).optional_dependencies@,
                    ps0 == old(parents).deep_view(),
                    stack0 == ps0,
                    extras_in(opt_items(t_v), reqs_v),
                    norm_get(t_v, extra@) == Some(reqs_v),
                    assoc_get(ropt0, extra@) is None,
                    !ps0.contains(ItemModel::Extra(extra@)),
                    ps1 == ps0.push(ItemModel::Extra(extra@)),
                    parents.deep_view() == ps1,
                    resolved.dependency_groups@ == old(resolved).dependency_groups@,
                    projv == proj_view(project_name),
                    projv == Some(reqs_v[i as int].name),
                    s_extra_entries(
                        t_v,
                        reqs_v,
                        0,
                        0,
                        Seq::<ReqModel>::empty(),
                        ropt0,
                        ps1,
                        projv,
                    ) == s_extra_entries(
                        t_v,
                        reqs_v,
                        i as int,
                        j as int,
                        out.deep_view(),
                        resolved.optional_dependencies@,
                        ps1,
                        projv,
                    ),
                decreases req.extras.len() - j,
            {
                proof {
                    assert(reqs_v[i as int].extras[j as int] == req.extras@[j as int]@);
                    lemma_extra_step(
                        t_v,
                        reqs_v,
                        i as int,
                        j as int,
                        out.deep_view(),
                        resolved.optional_dependencies@,
                        ps1,
                        projv,
                    );
                    assert(opt_items(t_v).contains(
                        ItemModel::Extra(reqs_v[i as int].extras[j as int]),
                    ));
                }
                let ename = req.extras[j].as_str();
                proof {
                    let items = opt_items(t_v);
                    lemma_count_new_push(items, ps0, ItemModel::Extra(extra@));
                    assert(ename@ == reqs_v[i as int].extras[j as int]);
                    assert(items.contains(ItemModel::Extra(ename@)));
                    assert(extra_bonus(items, ename@, parents.deep_view()) == 0);
                    if items.contains(ItemModel::Extra(extra@)) {
                        assert(count_new(items, ps1) < count_new(items, ps0));
                    } else {
                        assert(extra_bonus(items, extra@, ps0) == 1);
                        assert(count_new(items, ps1) <= count_new(items, ps0));
                    }
                    assert(parents@.len() == parents.deep_view().len());
                    assert(count_new(items, parents.deep_view()) + extra_bonus(
                        items,
                        ename@,
                        parents.deep_view(),
                    ) < count_new(items, ps0) + extra_bonus(items, extra@, ps0));
                }
                let sub = core_resolve_extra(
                    ename,
                    optional_dependencies,
                    resolved,
                    parents,
                    project_name,
                    Ghost(ps1),
                );
                match sub {
                    Ok(mut l) => {
                        let ghost out_before = out.deep_view();
                        let ghost l_v = l.deep_view();
                        out.append(&mut l);
                        proof {
                            assert(out.deep_view() =~= out_before + l_v);
                        }
                        j = j + 1;
                    },
                    Err(ce) => {
                        return Err(ce);
                    },
                }
            }
            proof {
                assert(s_extra_entries(
                    t_v,
                    reqs_v,
                    i as int,
                    j as int,
                    out.deep_view(),
                    resolved.optional_dependencies@,
                    ps1,
                    projv,
                ) == s_extra_entries(
                    t_v,
                    reqs_v,
                    i as int + 1,
                    0,
                    out.deep_view(),
                    resolved.optional_dependencies@,
                    ps1,
                    projv,
                ));
            }
        } else {
            let ghost out_before = out.deep_view();
            out.push(req.clone());
            proof {
                assert(out.deep_view() =~= out_before.push(reqs_v[i as int]));
            }
        }
        i = i + 1;
    }

    let ghost ropt_end = resolved.optional_dependencies@;
    proof {
        assert(s_extra_entries(t_v, reqs_v, reqs_v.len() as int, 0, out.deep_view(), ropt_end, ps1, projv)
            == ExtraOut::Done { list: out.deep_view(), ropt: ropt_end });
    }
    let key = extra.to_owned();
    let stored = clone_requirements(&out);
    resolved.optional_dependencies.insert(key, stored);
    let ghost pv = parents@;
    let _ = parents.pop();
    proof {
        assert(pv.len() == ps1.len());
        assert(parents@ =~= pv.subrange(0, pv.len() - 1));
        assert forall|k: int| 0 <= k < parents@.len() implies parents.deep_view()[k] == ps0[k] by {
            assert(parents.deep_view()[k] == parents@[k]@);
            assert(parents@[k] == pv[k]);
            assert(pv[k]@ == ps1[k]);
        }
        assert(parents.deep_view() =~= ps0);
        assert(resolved.optional_dependencies@ == assoc_insert(ropt_end, extra@, out.deep_view()));
    }
    Ok(out)
}

/// Pushing an item never raises the measure, and pushing a mentioned item
/// that was not yet on the stack strictly lowers it.
pub proof fn lemma_count_new_push(all: Seq<ItemModel>, parents: Seq<ItemModel>, x: ItemModel)
    ensures
        count_new(all, parents.push(x)) <= count_new(all, parents),
        all.contains(x) && !parents.contains(x) ==> count_new(all, parents.push(x)) < count_new(
            all,
            parents,
        ),
    decreases all.len(),
{
    if all.len() > 0 {
        assert forall|y: ItemModel| parents.contains(y) implies parents.push(x).contains(y) by {
            let i = choose|i: int| 0 <= i < parents.len() && parents[i] == y;
            assert(parents.push(x)[i] == y);
        }
        assert(parents.push(x)[parents.len() as int] == x);
        lemma_count_new_push(all.drop_first(), parents, x);
        if all.contains(x) && !parents.contains(x) {
            if all[0] == x {
                assert(!parents.contains(all[0]));
                assert(parents.push(x).contains(all[0]));
            } else {
                let i = choose|i: int| 0 <= i < all.len() && all[i] == x;
                assert(all.drop_first()[i - 1] == x);
                assert(all.drop_first().contains(x));
            }
        }
    }
}

/// The includes a dependency-group row can make: one tagged item per
/// `include-group` entry.
pub open spec fn specs_items(ss: Seq<crate::SpecifierModel>) -> Seq<ItemModel>
    decreases ss.len(),
{
    if ss.len() == 0 {
        Seq::<ItemModel>::empty()
    } else {
        (match ss[0] {
            crate::SpecifierModel::Include(n) => seq![ItemModel::Group(n)],
            crate::SpecifierModel::Requirement(_) => Seq::<ItemModel>::empty(),
        }) + specs_items(ss.drop_first())
    }
}

/// Every group name a dependency-groups table mentions, as a tagged item:
/// its keys and the target of every include entry.
pub open spec fn grp_items(g: Seq<(Seq<char>, Seq<crate::SpecifierModel>)>) -> Seq<ItemModel>
    decreases g.len(),
{
    if g.len() == 0 {
        Seq::<ItemModel>::empty()
    } else {
        seq![ItemModel::Group(g[0].0)] + specs_items(g[0].1) + grp_items(g.drop_first())
    }
}

/// Every include of a row targets a group the table mentions.
pub open spec fn includes_in(all: Seq<ItemModel>, ss: Seq<crate::SpecifierModel>) -> bool {
    forall|i: int|
        0 <= i < ss.len() ==> match #[trigger] ss[i] {
            crate::SpecifierModel::Include(n) => all.contains(ItemModel::Group(n)),
            crate::SpecifierModel::Requirement(_) => true,
        }
}

/// The include of row `i` targets a group among the row list's items.
pub proof fn lemma_specs_items_member(ss: Seq<crate::SpecifierModel>, i: int, n: Seq<char>)
    requires
        0 <= i < ss.len(),
        ss[i] == crate::SpecifierModel::Include(n),
    ensures
        specs_items(ss).contains(ItemModel::Group(n)),
    decreases i,
{
    let head = match ss[0] {
        crate::SpecifierModel::Include(m) => seq![ItemModel::Group(m)],
        crate::SpecifierModel::Requirement(_) => Seq::<ItemModel>::empty(),
    };
    if i == 0 {
        assert(head[0] == ItemModel::Group(n));
        lemma_contains_app_l(head, specs_items(ss.drop_first()), ItemModel::Group(n));
    } else {
        assert(ss.drop_first()[i - 1] == ss[i]);
        lemma_specs_items_member(ss.drop_first(), i - 1, n);
        lemma_contains_app_r(head, specs_items(ss.drop_first()), ItemModel::Group(n));
    }
}

/// A row found by exact lookup includes only groups the table mentions.
pub proof fn lemma_assoc_get_includes_in(
    g: Seq<(Seq<char>, Seq<crate::SpecifierModel>)>,
    k: Seq<char>,
)
    requires
        assoc_get(g, k) is Some,
    ensures
        includes_in(grp_items(g), assoc_get(g, k)->Some_0),
    decreases g.len(),
{
    let ss = assoc_get(g, k)->Some_0;
    if g[0].0 == k {
        assert forall|i: int| 0 <= i < ss.len() implies match #[trigger] ss[i] {
            crate::SpecifierModel::Include(n) => grp_items(g).contains(ItemModel::Group(n)),
            crate::SpecifierModel::Requirement(_) => true,
        } by {
            if let crate::SpecifierModel::Include(n) = ss[i] {
                lemma_specs_items_member(ss, i, n);
                lemma_contains_app_l(specs_items(g[0].1), grp_items(g.drop_first()),
                    ItemModel::Group(n));
                lemma_contains_app_r(
                    seq![ItemModel::Group(g[0].0)],
                    specs_items(g[0].1) + grp_items(g.drop_first()),
                    ItemModel::Group(n),
                );
                assert(seq![ItemModel::Group(g[0].0)] + (specs_items(g[0].1) + grp_items(
                    g.drop_first(),
                )) =~= grp_items(g));
            }
        }
    } else {
        lemma_assoc_get_includes_in(g.drop_first(), k);
        assert forall|i: int| 0 <= i < ss.len() implies match #[trigger] ss[i] {
            crate::SpecifierModel::Include(n) => grp_items(g).contains(ItemModel::Group(n)),
            crate::SpecifierModel::Requirement(_) => true,
        } by {
            if let crate::SpecifierModel::Include(n) = ss[i] {
                assert(grp_items(g.drop_first()).contains(ItemModel::Group(n)));
                lemma_contains_app_r(
                    seq![ItemModel::Group(g[0].0)] + specs_items(g[0].1),
                    grp_items(g.drop_first()),
                    ItemModel::Group(n),
                );
                assert((seq![ItemModel::Group(g[0].0)] + specs_items(g[0].1)) + grp_items(
                    g.drop_first(),
                ) =~= grp_items(g));
            }
        }
    }
}

/// The outcome of resolving one dependency group: the flat requirement
/// list and both caches after the walk, or the failure with the caches and
/// ancestor stack as the walk left them.
pub ghost enum GroupOut {
    Done {
        list: Seq<ReqModel>,
        ropt: Seq<(Seq<char>, Seq<ReqModel>)>,
        rgrp: Seq<(Seq<char>, Seq<ReqModel>)>,
    },
    Fail {
        err: ErrModel,
        ropt: Seq<(Seq<char>, Seq<ReqModel>)>,
        rgrp: Seq<(Seq<char>, Seq<ReqModel>)>,
        parents: Seq<ItemModel>,
    },
}

/// The extras of the current literal requirement still to expand, for the
/// termination measure.
pub open spec fn gextras_rem(
    ss: Seq<crate::SpecifierModel>,
    i: int,
    j: int,
    proj: Option<Seq<char>>,
) -> int {
    if 0 <= i < ss.len() {
        match ss[i] {
            crate::SpecifierModel::Requirement(r) => if proj == Some(r.name) && 0 <= j
                <= r.extras.len() {
                r.extras.len() - j
            } else {
                0
            },
            crate::SpecifierModel::Include(_) => 0,
        }
    } else {
        0
    }
}

/// Resolution of the specifier rows `ss[i..]` of one dependency group,
/// with the extras of a self-referential literal at `ss[i]` expanded from
/// position `j` on. Literal requirements are appended verbatim unless they
/// name the project itself, in which case each declared extra is resolved
/// against the optional-dependencies table; include entries are resolved
/// against the dependency-groups table itself.
pub open spec fn s_group_entries(
    t: Seq<(Seq<char>, Seq<ReqModel>)>,
    g: Seq<(Seq<char>, Seq<crate::SpecifierModel>)>,
    ss: Seq<crate::SpecifierModel>,
    i: int,
    j: int,
    acc: Seq<ReqModel>,
    ropt: Seq<(Seq<char>, Seq<ReqModel>)>,
    rgrp: Seq<(Seq<char>, Seq<ReqModel>)>,
    parents: Seq<ItemModel>,
    proj: Option<Seq<char>>,
) -> GroupOut
    decreases count_new(grp_items(g), parents), ss.len() - i, gextras_rem(ss, i, j, proj),
    when 0 <= i <= ss.len() && 0 <= j && includes_in(grp_items(g), ss)
{
    if i >= ss.len() {
        GroupOut::Done { list: acc, ropt, rgrp }
    } else {
        match ss[i] {
            crate::SpecifierModel::Requirement(r) => if proj == Some(r.name) {
                if j >= r.extras.len() {
                    s_group_entries(t, g, ss, i + 1, 0, acc, ropt, rgrp, parents, proj)
                } else {
                    match s_extra(t, r.extras[j], ropt, parents, proj) {
                        ExtraOut::Done { list, ropt: ropt2 } => s_group_entries(
                            t,
                            g,
                            ss,
                            i,
                            j + 1,
                            acc + list,
                            ropt2,
                            rgrp,
                            parents,
                            proj,
                        ),
                        ExtraOut::Fail { err, ropt: r2, parents: p2 } => GroupOut::Fail {
                            err,
                            ropt: r2,
                            rgrp,
                            parents: p2,
                        },
                    }
                }
            } else {
                s_group_entries(t, g, ss, i + 1, 0, acc.push(r), ropt, rgrp, parents, proj)
            },
            crate::SpecifierModel::Include(n) => match assoc_get(rgrp, n) {
                Option::Some(l) => s_group_entries(
                    t,
                    g,
                    ss,
                    i + 1,
                    0,
                    acc + l,
                    ropt,
                    rgrp,
                    parents,
                    proj,
                ),
                Option::None => match assoc_get(g, n) {
                    Option::None => GroupOut::Fail {
                        err: ErrModel::GroupNotFound { name: n, referrer: parents.last() },
                        ropt,
                        rgrp,
                        parents,
                    },
                    Option::Some(ss2) => if parents.contains(ItemModel::Group(n)) {
                        GroupOut::Fail {
                            err: ErrModel::CycleFound { at: ItemModel::Group(n), stack: parents },
                            ropt,
                            rgrp,
                            parents,
                        }
                    } else {
                        proof {
                            lemma_count_new_push(grp_items(g), parents, ItemModel::Group(n));
                            lemma_assoc_get_includes_in(g, n);
                        }
                        match s_group_entries(
                            t,
                            g,
                            ss2,
                            0,
                            0,
                            Seq::<ReqModel>::empty(),
                            ropt,
                            rgrp,
                            parents.push(ItemModel::Group(n)),
                            proj,
                        ) {
                            GroupOut::Done { list: l2, ropt: ropt2, rgrp: rgrp2 } =>
                                s_group_entries(
                                t,
                                g,
                                ss,
                                i + 1,
                                0,
                                acc + l2,
                                ropt2,
                                assoc_insert(rgrp2, n, l2),
                                parents,
                                proj,
                            ),
                            GroupOut::Fail { err, ropt: r2, rgrp: g2, parents: p2 } =>
                                GroupOut::Fail { err, ropt: r2, rgrp: g2, parents: p2 },
                        }
                    },
                },
            },
        }
    }
}

/// Resolution of one dependency group: the cached list if it was already
/// resolved; the flat list of its specifier rows with every include and
/// self-reference expanded, cached under the requested name, when the walk
/// succeeds; and the first failure otherwise. The row is found by exact
/// key; a missing row is reported against the top of the ancestor stack,
/// and a revisit of a group already on the stack is a cycle.
pub open spec fn s_group(
    t: Seq<(Seq<char>, Seq<ReqModel>)>,
    g: Seq<(Seq<char>, Seq<crate::SpecifierModel>)>,
    name: Seq<char>,
    ropt: Seq<(Seq<char>, Seq<ReqModel>)>,
    rgrp: Seq<(Seq<char>, Seq<ReqModel>)>,
    parents: Seq<ItemModel>,
    proj: Option<Seq<char>>,
) -> GroupOut {
    match assoc_get(rgrp, name) {
        Option::Some(l) => GroupOut::Done { list: l, ropt, rgrp },
        Option::None => match assoc_get(g, name) {
            Option::None => GroupOut::Fail {
                err: ErrModel::GroupNotFound { name, referrer: parents.last() },
                ropt,
                rgrp,
                parents,
            },
            Option::Some(ss) => if parents.contains(ItemModel::Group(name)) {
                GroupOut::Fail {
                    err: ErrModel::CycleFound { at: ItemModel::Group(name), stack: parents },
                    ropt,
                    rgrp,
                    parents,
                }
            } else {
                match s_group_entries(
                    t,
                    g,
                    ss,
                    0,
                    0,
                    Seq::<ReqModel>::empty(),
                    ropt,
                    rgrp,
                    parents.push(ItemModel::Group(name)),
                    proj,
                ) {
                    GroupOut::Done { list, ropt: ropt1, rgrp: rgrp1 } => GroupOut::Done {
                        list,
                        ropt: ropt1,
                        rgrp: assoc_insert(rgrp1, name, list),
                    },
                    GroupOut::Fail { err, ropt: r1, rgrp: g1, parents: p1 } => GroupOut::Fail {
                        err,
                        ropt: r1,
                        rgrp: g1,
                        parents: p1,
                    },
                }
            },
        },
    }
}

/// One include step at row `i` is exactly a resolution of the group it
/// names, followed by the remaining steps.
pub proof fn lemma_group_step(
    t: Seq<(Seq<char>, Seq<ReqModel>)>,
    g: Seq<(Seq<char>, Seq<crate::SpecifierModel>)>,
    ss: Seq<crate::SpecifierModel>,
    i: int,
    j: int,
    acc: Seq<ReqModel>,
    ropt: Seq<(Seq<char>, Seq<ReqModel>)>,
    rgrp: Seq<(Seq<char>, Seq<ReqModel>)>,
    parents: Seq<ItemModel>,
    proj: Option<Seq<char>>,
    n: Seq<char>,
)
    requires
        0 <= i < ss.len(),
        0 <= j,
        ss[i] == crate::SpecifierModel::Include(n),
        includes_in(grp_items(g), ss),
    ensures
        s_group_entries(t, g, ss, i, j, acc, ropt, rgrp, parents, proj) == (match s_group(
            t,
            g,
            n,
            ropt,
            rgrp,
            parents,
            proj,
        ) {
            GroupOut::Done { list, ropt: ropt2, rgrp: rgrp2 } => s_group_entries(
                t,
                g,
                ss,
                i + 1,
                0,
                acc + list,
                ropt2,
                rgrp2,
                parents,
                proj,
            ),
            GroupOut::Fail { err, ropt: r2, rgrp: g2, parents: p2 } => GroupOut::Fail {
                err,
                ropt: r2,
                rgrp: g2,
                parents: p2,
            },
        }),
{
    match assoc_get(rgrp, n) {
        Option::Some(l) => {
            assert(s_group(t, g, n, ropt, rgrp, parents, proj) == GroupOut::Done {
                list: l,
                ropt,
                rgrp,
            });
        },
        Option::None => {
            match assoc_get(g, n) {
                Option::None => {},
                Option::Some(ss2) => {
                    if !parents.contains(ItemModel::Group(n)) {
                        lemma_assoc_get_includes_in(g, n);
                        let inner = s_group_entries(
                            t,
                            g,
                            ss2,
                            0,
                            0,
                            Seq::<ReqModel>::empty(),
                            ropt,
                            rgrp,
                            parents.push(ItemModel::Group(n)),
                            proj,
                        );
                        match inner {
                            GroupOut::Done { list: l2, ropt: ropt2, rgrp: rgrp2 } => {},
                            GroupOut::Fail { err, ropt: r2, rgrp: g2, parents: p2 } => {},
                        }
                    }
                },
            }
        },
    }
}

/// One extra unit of measure for a requested group name that the table
/// does not mention and the stack does not hold yet.
pub open spec fn group_bonus(all: Seq<ItemModel>, n: Seq<char>, parents: Seq<ItemModel>) -> int {
    if !all.contains(ItemModel::Group(n)) && !parents.contains(ItemModel::Group(n)) {
        1int
    } else {
        0int
    }
}

/// What resolving one dependency group guarantees: the call behaves
/// exactly like its mirror [`s_group`], relating the result, the final
/// caches and the final ancestor stack to the values at entry.
pub open spec fn core_group_post(
    t: Seq<(Seq<char>, Seq<ReqModel>)>,
    g: Seq<(Seq<char>, Seq<crate::SpecifierModel>)>,
    name: Seq<char>,
    ropt0: Seq<(Seq<char>, Seq<ReqModel>)>,
    rgrp0: Seq<(Seq<char>, Seq<ReqModel>)>,
    ps0: Seq<ItemModel>,
    proj: Option<Seq<char>>,
    r: Result<Vec<Requirement>, CoreError>,
    ropt1: Seq<(Seq<char>, Seq<ReqModel>)>,
    rgrp1: Seq<(Seq<char>, Seq<ReqModel>)>,
    ps1: Seq<ItemModel>,
) -> bool {
    match s_group(t, g, name, ropt0, rgrp0, ps0, proj) {
        GroupOut::Done { list, ropt, rgrp } => r matches Ok(v) && v.deep_view() == list && ropt1
            == ropt && rgrp1 == rgrp && ps1 == ps0,
        GroupOut::Fail { err, ropt, rgrp, parents } => r matches Err(e) && e@ == err && ropt1
            == ropt && rgrp1 == rgrp && ps1 == parents,
    }
}

/// Resolves a single dependency group against both tables, exactly as the
/// mirror [`s_group`] says: the cached list on a repeated request,
/// otherwise the flattened specifier rows of the group with every include
/// and self-reference expanded recursively, memoized in
/// `resolved.dependency_groups` under the requested name.
pub(crate) fn core_resolve_group(
    group: &str,
    optional_dependencies: &crate::OptionalDependencies,
    dependency_groups: &crate::DependencyGroups,
    resolved: &mut crate::ResolvedDependencies,
    parents: &mut Vec<Item>,
    project_name: Option<&str>,
    Ghost(stack0): Ghost<Seq<ItemModel>>,
) -> (r: Result<Vec<Requirement>, CoreError>)
    requires
        stack0 == old(parents).deep_view(),
        (assoc_get(old(resolved).dependency_groups@, group@) is None && assoc_get(
            dependency_groups@,
            group@,
        ) is None) ==> old(parents)@.len() > 0,
    ensures
        core_group_post(
            optional_dependencies@,
            dependency_groups@,
            group@,
            old(resolved).optional_dependencies@,
            old(resolved).dependency_groups@,
            old(parents).deep_view(),
            proj_view(project_name),
            r,
            final(resolved).optional_dependencies@,
            final(resolved).dependency_groups@,
            final(parents).deep_view(),
        ),
    decreases count_new(grp_items(dependency_groups@), stack0) + group_bonus(
        grp_items(dependency_groups@),
        group@,
        stack0,
    ),
{
    let ghost t_v = optional_dependencies@;
    let ghost g_v = dependency_groups@;
    let ghost ropt0 = resolved.optional_dependencies@;
    let ghost rgrp0 = resolved.dependency_groups@;
    let ghost ps0 = parents.deep_view();
    let ghost projv = proj_view(project_name);

    if let Some(cached) = resolved.dependency_groups.get(group) {
        let out = clone_requirements(cached);
        return Ok(out);
    }
    proof {
        assert(assoc_get(rgrp0, group@) is None);
    }

    let found = dependency_groups.get(group);
    if found.is_none() {
        proof {
            assert(parents@.len() > 0);
        }
        let referrer = parents[parents.len() - 1].clone();
        proof {
            assert(referrer@ == ps0.last());
        }
        return Err(CoreError::NotFound { item: Item::Group(group.to_owned()), referrer });
    }
    let specs = found.unwrap();
    let ghost ss_v = specs.deep_view();

    let item = Item::Group(group.to_owned());
    if contains_item(parents, &item) {
        let stack = clone_items(parents);
        return Err(CoreError::CycleHit { at: item, stack });
    }

    proof {
        lemma_assoc_get_includes_in(g_v, group@);
        lemma_count_new_push(grp_items(g_v), ps0, ItemModel::Group(group@));
    }
    parents.push(item);
    let ghost ps1g = ps0.push(ItemModel::Group(group@));
    proof {
        assert(parents.deep_view() =~= ps1g);
    }

    let proj_s: Option<String> = match project_name {
        Some(p) => Some(p.to_owned()),
        None => None,
    };

    let mut out: Vec<Requirement> = Vec::new();
    proof {
        assert(out.deep_view() =~= Seq::<ReqModel>::empty());
    }
    let mut i: usize = 0;
    while i < specs.len()
        invariant
            i <= specs.len(),
            specs.deep_view() == ss_v,
            t_v == optional_dependencies@,
            g_v == dependency_groups@,
            ropt0 == old(resolved).optional_dependencies@,
            rgrp0 == old(resolved).dependency_groups@,
            ps0 == old(parents).deep_view(),
            stack0 == ps0,
            includes_in(grp_items(g_v), ss_v),
            assoc_get(g_v, group@) == Some(ss_v),
            assoc_get(rgrp0, group@) is None,
            !ps0.contains(ItemModel::Group(group@)),
            ps1g == ps0.push(ItemModel::Group(group@)),
            parents.deep_view() == ps1g,
            match (proj_s, proj_view(project_name)) {
                (Option::Some(a), Option::Some(b)) => a@ == b,
                (Option::None, Option::None) => true,
                _ => false,
            },
            projv == proj_view(project_name),
            s_group_entries(t_v, g_v, ss_v, 0, 0, Seq::<ReqModel>::empty(), ropt0, rgrp0, ps1g, projv)
                == s_group_entries(
                t_v,
                g_v,
                ss_v,
                i as int,
                0,
                out.deep_view(),
                resolved.optional_dependencies@,
                resolved.dependency_groups@,
                ps1g,
                projv,
            ),
        decreases specs.len() - i,
    {
        match &specs[i] {
            crate::DependencyGroupSpecifier::Requirement(spec) => {
                let is_self = match &proj_s {
                    Option::Some(ps) => spec.name == *ps,
                    Option::None => false,
                };
                proof {
                    assert(ss_v[i as int] == crate::SpecifierModel::Requirement(spec@));
                    assert(is_self == (projv == Some(spec@.name)));
                }
                if is_self {
                    let mut j: usize = 0;
                    while j < spec.extras.len()
                        invariant
                            i < specs.len(),
                            j <= spec.extras.len(),
                            ss_v[i as int] == crate::SpecifierModel::Requirement(spec@),
                            specs.deep_view() == ss_v,
                            t_v == optional_dependencies@,
                            g_v == dependency_groups@,
                            ropt0 == old(resolved).optional_dependencies@,
                            rgrp0 == old(resolved).dependency_groups@,
                            ps0 == old(parents).deep_view(),
                            stack0 == ps0,
                            includes_in(grp_items(g_v), ss_v),
                            assoc_get(g_v, group@) == Some(ss_v),
                            assoc_get(rgrp0, group@) is None,
                            !ps0.contains(ItemModel::Group(group@)),
                            ps1g == ps0.push(ItemModel::Group(group@)),
                            parents.deep_view() == ps1g,
                            projv == proj_view(project_name),
                            projv == Some(spec@.name),
                            s_group_entries(
                                t_v,
                                g_v,
                                ss_v,
                                0,
                                0,
                                Seq::<ReqModel>::empty(),
                                ropt0,
                                rgrp0,
                                ps1g,
                                projv,
                            ) == s_group_entries(
                                t_v,
                                g_v,
                                ss_v,
                                i as int,
                                j as int,
                                out.deep_view(),
                                resolved.optional_dependencies@,
                                resolved.dependency_groups@,
                                ps1g,
                                projv,
                            ),
                        decreases spec.extras.len() - j,
                    {
                        let ename = spec.extras[j].as_str();
                        proof {
                            assert(ename@ == spec@.extras[j as int]);
                        }
                        let sub = core_resolve_extra(
                            ename,
                            optional_dependencies,
                            resolved,
                            parents,
                            project_name,
                            Ghost(ps1g),
                        );
                        match sub {
                            Ok(mut l) => {
                                let ghost out_before = out.deep_view();
                                let ghost l_v = l.deep_view();
                                out.append(&mut l);
                                proof {
                                    assert(out.deep_view() =~= out_before + l_v);
                                }
                                j = j + 1;
                            },
                            Err(ce) => {
                                return Err(ce);
                            },
                        }
                    }
                    proof {
                        assert(s_group_entries(
                            t_v,
                            g_v,
                            ss_v,
                            i as int,
                            j as int,
                            out.deep_view(),
                            resolved.optional_dependencies@,
                            resolved.dependency_groups@,
                            ps1g,
                            projv,
                        ) == s_group_entries(
                            t_v,
                            g_v,
                            ss_v,
                            i as int + 1,
                            0,
                            out.deep_view(),
                            resolved.optional_dependencies@,
                            resolved.dependency_groups@,
                            ps1g,
                            projv,
                        ));
                    }
                } else {
                    let ghost out_before = out.deep_view();
                    out.push(spec.clone());
                    proof {
                        assert(out.deep_view() =~= out_before.push(spec@));
                    }
                }
            },
            crate::DependencyGroupSpecifier::Table { include_group } => {
                proof {
                    assert(ss_v[i as int] == crate::SpecifierModel::Include(include_group@));
                    lemma_group_step(
                        t_v,
                        g_v,
                        ss_v,
                        i as int,
                        0,
                        out.deep_view(),
                        resolved.optional_dependencies@,
                        resolved.dependency_groups@,
                        ps1g,
                        projv,
                        include_group@,
                    );
                    let items = grp_items(g_v);
                    lemma_count_new_push(items, ps0, ItemModel::Group(group@));
                    assert(items.contains(ItemModel::Group(include_group@)));
                    assert(group_bonus(items, include_group@, parents.deep_view()) == 0);
                    if items.contains(ItemModel::Group(group@)) {
                        assert(count_new(items, ps1g) < count_new(items, ps0));
                    } else {
                        assert(group_bonus(items, group@, ps0) == 1);
                        assert(count_new(items, ps1g) <= count_new(items, ps0));
                    }
                }
                let iname = include_group.as_str();
                let sub = core_resolve_group(
                    iname,
                    optional_dependencies,
                    dependency_groups,
                    resolved,
                    parents,
                    project_name,
                    Ghost(ps1g),
                );
                match sub {
                    Ok(mut l) => {
                        let ghost out_before = out.deep_view();
                        let ghost l_v = l.deep_view();
                        out.append(&mut l);
                        proof {
                            assert(out.deep_view() =~= out_before + l_v);
                        }
                    },
                    Err(ce) => {
                        return Err(ce);
                    },
                }
            },
        }
        i = i + 1;
    }

    let ghost ropt_end = resolved.optional_dependencies@;
    let ghost rgrp_end = resolved.dependency_groups@;
    proof {
        assert(s_group_entries(
            t_v,
            g_v,
            ss_v,
            ss_v.len() as int,
            0,
            out.deep_view(),
            ropt_end,
            rgrp_end,
            ps1g,
            projv,
        ) == GroupOut::Done { list: out.deep_view(), ropt: ropt_end, rgrp: rgrp_end });
    }
    let key = group.to_owned();
    let stored = clone_requirements(&out);
    resolved.dependency_groups.insert(key, stored);
    let ghost pv = parents@;
    let _ = parents.pop();
    proof {
        assert(pv.len() == ps1g.len());
        assert(parents@ =~= pv.subrange(0, pv.len() - 1));
        assert forall|k: int| 0 <= k < parents@.len() implies parents.deep_view()[k] == ps0[k] by {
            assert(parents.deep_view()[k] == parents@[k]@);
            assert(parents@[k] == pv[k]);
            assert(pv[k]@ == ps1g[k]);
        }
        assert(parents.deep_view() =~= ps0);
        assert(resolved.dependency_groups@ == assoc_insert(rgrp_end, group@, out.deep_view()));
    }
    Ok(out)
}

/// The value a [`ResolveErrorKind`] carries: as [`ErrModel`], but a cycle
/// keeps only the ancestor stack it reports.
pub ghost enum KindModel {
    OptionalDependencyNotFound { name: Seq<char>, included_by: ItemModel },
    DependencyGroupNotFound { name: Seq<char>, included_by: ItemModel },
    DependencyGroupCycle(Seq<ItemModel>),
}

/// The public error value a resolution failure maps to.
pub open spec fn kind_of_err(e: ErrModel) -> KindModel {
    match e {
        ErrModel::OptionalNotFound { name, referrer } => KindModel::OptionalDependencyNotFound {
            name,
            included_by: referrer,
        },
        ErrModel::GroupNotFound { name, referrer } => KindModel::DependencyGroupNotFound {
            name,
            included_by: referrer,
        },
        ErrModel::CycleFound { at, stack } => KindModel::DependencyGroupCycle(stack),
    }
}

/// A cycle in the recursion: the ancestor stack at the moment a reference
/// back into it was discovered.
#[derive(Debug)]
pub struct Cycle(pub Vec<Item>);

impl View for Cycle {
    type V = Seq<ItemModel>;

    open spec fn view(&self) -> Seq<ItemModel> {
        self.0.deep_view()
    }
}

/// The labels of the stack from position `k` on, each preceded by an
/// arrow.
pub open spec fn arrow_text_from(items: Seq<ItemModel>, k: int) -> Seq<char>
    decreases items.len() - k,
    when 0 <= k <= items.len()
{
    if k >= items.len() {
        Seq::<char>::empty()
    } else {
        " -> "@ + item_label(items[k]) + arrow_text_from(items, k + 1)
    }
}

/// A cycle rendered as `a -> b -> a`: the stack in discovery order, with
/// the first reference repeated at the end; an empty stack renders empty.
pub open spec fn cycle_text(items: Seq<ItemModel>) -> Seq<char> {
    if items.len() == 0 {
        Seq::<char>::empty()
    } else {
        item_label(items[0]) + arrow_text_from(items, 1) + " -> "@ + item_label(items[0])
    }
}

impl Cycle {
    /// The cycle as `extra:a -> extra:b -> extra:a`.
    pub fn message(&self) -> (r: String)
        ensures
            r@ == cycle_text(self@),
    {
        let ghost dv = self@;
        if self.0.len() == 0 {
            let r = String::new();
            proof {
                assert(r@ =~= cycle_text(dv));
            }
            return r;
        }
        let mut s = self.0[0].label();
        let mut i: usize = 1;
        proof {
            assert(self.0@[0]@ == dv[0]);
        }
        while i < self.0.len()
            invariant
                1 <= i <= self.0.len(),
                self@ == dv,
                dv.len() == self.0@.len(),
                s@ + arrow_text_from(dv, i as int) == item_label(dv[0]) + arrow_text_from(dv, 1),
            decreases self.0.len() - i,
        {
            s.append(" -> ");
            let label = self.0[i].label();
            s.append(label.as_str());
            proof {
                assert(self.0@[i as int]@ == dv[i as int]);
            }
            i = i + 1;
        }
        s.append(" -> ");
        let first = self.0[0].label();
        s.append(first.as_str());
        proof {
            assert(arrow_text_from(dv, dv.len() as int) =~= Seq::<char>::empty());
            assert(s@ =~= cycle_text(dv));
        }
        s
    }
}

/// Why resolution failed: a missing optional dependency, a missing
/// dependency group, or a reference cycle.
#[derive(Debug)]
pub enum ResolveErrorKind {
    OptionalDependencyNotFound { name: String, included_by: Item },
    DependencyGroupNotFound { name: String, included_by: Item },
    DependencyGroupCycle(Cycle),
}

impl View for ResolveErrorKind {
    type V = KindModel;

    open spec fn view(&self) -> KindModel {
        match self {
            ResolveErrorKind::OptionalDependencyNotFound { name, included_by } =>
                KindModel::OptionalDependencyNotFound { name: name@, included_by: included_by@ },
            ResolveErrorKind::DependencyGroupNotFound { name, included_by } =>
                KindModel::DependencyGroupNotFound { name: name@, included_by: included_by@ },
            ResolveErrorKind::DependencyGroupCycle(c) => KindModel::DependencyGroupCycle(c@),
        }
    }
}

/// The exact message each error kind renders to.
pub open spec fn kind_text(k: KindModel) -> Seq<char> {
    match k {
        KindModel::OptionalDependencyNotFound { name, included_by } =>
            "Failed to find optional dependency `"@ + name + "` included by "@ + item_label(
                included_by,
            ),
        KindModel::DependencyGroupNotFound { name, included_by } =>
            "Failed to find dependency group `"@ + name + "` included by "@ + item_label(
                included_by,
            ),
        KindModel::DependencyGroupCycle(items) => "Cycles are not supported: "@ + cycle_text(
            items,
        ),
    }
}

impl ResolveErrorKind {
    /// The user-facing message of this failure.
    pub fn message(&self) -> (r: String)
        ensures
            r@ == kind_text(self@),
    {
        match self {
            ResolveErrorKind::OptionalDependencyNotFound { name, included_by } => {
                let mut s: String = "Failed to find optional dependency `".to_owned();
                s.append(name.as_str());
                s.append("` included by ");
                let label = included_by.label();
                s.append(label.as_str());
                s
            },
            ResolveErrorKind::DependencyGroupNotFound { name, included_by } => {
                let mut s: String = "Failed to find dependency group `".to_owned();
                s.append(name.as_str());
                s.append("` included by ");
                let label = included_by.label();
                s.append(label.as_str());
                s
            },
            ResolveErrorKind::DependencyGroupCycle(c) => {
                let mut s: String = "Cycles are not supported: ".to_owned();
                let cm = c.message();
                s.append(cm.as_str());
                s
            },
        }
    }
}

/// An error resolving optional dependencies or dependency groups.
#[derive(Debug)]
pub struct ResolveError(pub ResolveErrorKind);

impl View for ResolveError {
    type V = KindModel;

    open spec fn view(&self) -> KindModel {
        self.0@
    }
}

impl ResolveError {
    /// The user-facing message of this failure, transparently that of its
    /// kind.
    pub fn message(&self) -> (r: String)
        ensures
            r@ == kind_text(self@),
    {
        self.0.message()
    }
}

/// Map an internal failure to the public error value.
pub(crate) fn from_core(e: CoreError) -> (r: ResolveError)
    ensures
        r@ == kind_of_err(e@),
{
    match e {
        CoreError::NotFound { item, referrer } => match item {
            Item::Extra(name) => ResolveError(
                ResolveErrorKind::OptionalDependencyNotFound { name, included_by: referrer },
            ),
            Item::Group(name) => ResolveError(
                ResolveErrorKind::DependencyGroupNotFound { name, included_by: referrer },
            ),
        },
        CoreError::CycleHit { at, stack } => ResolveError(
            ResolveErrorKind::DependencyGroupCycle(Cycle(stack)),
        ),
    }
}

/// A table key is always found by normalized lookup: its own row matches,
/// if no earlier row does.
pub proof fn lemma_norm_get_key(t: Seq<(Seq<char>, Seq<ReqModel>)>, i: int)
    requires
        0 <= i < t.len(),
    ensures
        norm_get(t, t[i].0) is Some,
    decreases i,
{
    if t.len() > 0 && normalized(t[0].0) != normalized(t[i].0) {
        assert(i > 0);
        lemma_norm_get_key(t.drop_first(), i - 1);
        assert(t.drop_first()[i - 1] == t[i]);
    }
}

/// A table key is always found by exact lookup.
pub proof fn lemma_assoc_get_key<V>(m: Seq<(Seq<char>, V)>, i: int)
    requires
        0 <= i < m.len(),
    ensures
        assoc_get(m, m[i].0) is Some,
    decreases i,
{
    if m.len() > 0 && m[0].0 != m[i].0 {
        assert(i > 0);
        lemma_assoc_get_key(m.drop_first(), i - 1);
        assert(m.drop_first()[i - 1] == m[i]);
    }
}

/// The outcome of resolving every extra of the table in order.
pub ghost enum OptPassOut {
    Done { ropt: Seq<(Seq<char>, Seq<ReqModel>)> },
    Fail { err: ErrModel },
}

/// Resolve the keys of the optional-dependencies table from position `i`
/// on, each with a fresh ancestor stack, accumulating the resolved map.
pub open spec fn s_opt_keys(
    t: Seq<(Seq<char>, Seq<ReqModel>)>,
    i: int,
    ropt: Seq<(Seq<char>, Seq<ReqModel>)>,
    proj: Option<Seq<char>>,
) -> OptPassOut
    decreases t.len() - i,
    when 0 <= i <= t.len()
{
    if i >= t.len() {
        OptPassOut::Done { ropt }
    } else {
        match s_extra(t, t[i].0, ropt, Seq::<ItemModel>::empty(), proj) {
            ExtraOut::Done { list, ropt: r2 } => s_opt_keys(t, i + 1, r2, proj),
            ExtraOut::Fail { err, ropt: r2, parents: p2 } => OptPassOut::Fail { err },
        }
    }
}

/// The outcome of resolving every dependency group of the table in order.
pub ghost enum GrpPassOut {
    Done { ropt: Seq<(Seq<char>, Seq<ReqModel>)>, rgrp: Seq<(Seq<char>, Seq<ReqModel>)> },
    Fail { err: ErrModel },
}

/// Resolve the keys of the dependency-groups table from position `i` on,
/// each with a fresh ancestor stack, accumulating both resolved maps.
pub open spec fn s_grp_keys(
    t: Seq<(Seq<char>, Seq<ReqModel>)>,
    g: Seq<(Seq<char>, Seq<crate::SpecifierModel>)>,
    i: int,
    ropt: Seq<(Seq<char>, Seq<ReqModel>)>,
    rgrp: Seq<(Seq<char>, Seq<ReqModel>)>,
    proj: Option<Seq<char>>,
) -> GrpPassOut
    decreases g.len() - i,
    when 0 <= i <= g.len()
{
    if i >= g.len() {
        GrpPassOut::Done { ropt, rgrp }
    } else {
        match s_group(t, g, g[i].0, ropt, rgrp, Seq::<ItemModel>::empty(), proj) {
            GroupOut::Done { list, ropt: r2, rgrp: g2 } => s_grp_keys(t, g, i + 1, r2, g2, proj),
            GroupOut::Fail { err, .. } => GrpPassOut::Fail { err },
        }
    }
}

/// The outcome of a full resolution: both flat maps, or the first error.
pub ghost enum AllOut {
    Done { ropt: Seq<(Seq<char>, Seq<ReqModel>)>, rgrp: Seq<(Seq<char>, Seq<ReqModel>)> },
    Fail { err: ErrModel },
}

/// A full resolution: every optional-dependency extra first, in table
/// order, then every dependency group, with the optional resolutions made
/// so far available for cross-table references.
pub open spec fn s_resolve(
    t: Seq<(Seq<char>, Seq<ReqModel>)>,
    g: Seq<(Seq<char>, Seq<crate::SpecifierModel>)>,
    proj: Option<Seq<char>>,
) -> AllOut {
    match s_opt_keys(t, 0, Seq::<(Seq<char>, Seq<ReqModel>)>::empty(), proj) {
        OptPassOut::Done { ropt } => match s_grp_keys(
            t,
            g,
            0,
            ropt,
            Seq::<(Seq<char>, Seq<ReqModel>)>::empty(),
            proj,
        ) {
            GrpPassOut::Done { ropt: ropt2, rgrp } => AllOut::Done { ropt: ropt2, rgrp },
            GrpPassOut::Fail { err } => AllOut::Fail { err },
        },
        OptPassOut::Fail { err } => AllOut::Fail { err },
    }
}

/// The view of an optional table reference: the table's view, or the
/// empty table.
pub open spec fn opt_table_view(o: Option<&crate::OptionalDependencies>) -> Seq<
    (Seq<char>, Seq<ReqModel>),
> {
    match o {
        Option::Some(t) => t@,
        Option::None => Seq::<(Seq<char>, Seq<ReqModel>)>::empty(),
    }
}

/// The view of an optional groups reference: the table's view, or the
/// empty table.
pub open spec fn grp_table_view(o: Option<&crate::DependencyGroups>) -> Seq<
    (Seq<char>, Seq<crate::SpecifierModel>),
> {
    match o {
        Option::Some(g) => g@,
        Option::None => Seq::<(Seq<char>, Seq<crate::SpecifierModel>)>::empty(),
    }
}

/// Resolves a single optional dependency (extra), memoizing the result in
/// `resolved` under the requested spelling; see [`s_extra`] for the exact
/// behavior. An extra that is neither memoized nor in the table must have
/// a referrer on the ancestor stack to report.
pub fn resolve_optional_dependency(
    extra: &str,
    optional_dependencies: &crate::OptionalDependencies,
    resolved: &mut crate::ResolvedDependencies,
    parents: &mut Vec<Item>,
    project_name: Option<&str>,
) -> (r: Result<Vec<Requirement>, ResolveError>)
    requires
        (assoc_get(old(resolved).optional_dependencies@, extra@) is None && norm_get(
            optional_dependencies@,
            extra@,
        ) is None) ==> old(parents)@.len() > 0,
    ensures
        final(resolved).dependency_groups@ == old(resolved).dependency_groups@,
        match s_extra(
            optional_dependencies@,
            extra@,
            old(resolved).optional_dependencies@,
            old(parents).deep_view(),
            proj_view(project_name),
        ) {
            ExtraOut::Done { list, ropt } => r matches Ok(v) && v.deep_view() == list
                && final(resolved).optional_dependencies@ == ropt
                && final(parents).deep_view() == old(parents).deep_view(),
            ExtraOut::Fail { err, ropt, parents: ps } => r matches Err(e) && e@ == kind_of_err(err)
                && final(resolved).optional_dependencies@ == ropt && final(parents).deep_view()
                == ps,
        },
{
    let ghost st = parents.deep_view();
    match core_resolve_extra(
        extra,
        optional_dependencies,
        resolved,
        parents,
        project_name,
        Ghost(st),
    ) {
        Ok(v) => Ok(v),
        Err(ce) => Err(from_core(ce)),
    }
}

/// Resolves a single dependency group, memoizing the result in `resolved`
/// under the requested name; see [`s_group`] for the exact behavior. A
/// group that is neither memoized nor in the table must have a referrer
/// on the ancestor stack to report.
pub fn resolve_dependency_group(
    dep_group: &str,
    optional_dependencies: &crate::OptionalDependencies,
    dependency_groups: &crate::DependencyGroups,
    resolved: &mut crate::ResolvedDependencies,
    parents: &mut Vec<Item>,
    project_name: Option<&str>,
) -> (r: Result<Vec<Requirement>, ResolveError>)
    requires
        (assoc_get(old(resolved).dependency_groups@, dep_group@) is None && assoc_get(
            dependency_groups@,
            dep_group@,
        ) is None) ==> old(parents)@.len() > 0,
    ensures
        match s_group(
            optional_dependencies@,
            dependency_groups@,
            dep_group@,
            old(resolved).optional_dependencies@,
            old(resolved).dependency_groups@,
            old(parents).deep_view(),
            proj_view(project_name),
        ) {
            GroupOut::Done { list, ropt, rgrp } => r matches Ok(v) && v.deep_view() == list
                && final(resolved).optional_dependencies@ == ropt
                && final(resolved).dependency_groups@ == rgrp
                && final(parents).deep_view() == old(parents).deep_view(),
            GroupOut::Fail { err, ropt, rgrp, parents: ps } => r matches Err(e) && e@
                == kind_of_err(err) && final(resolved).optional_dependencies@ == ropt
                && final(resolved).dependency_groups@ == rgrp
                && final(parents).deep_view() == ps,
        },
{
    let ghost st = parents.deep_view();
    match core_resolve_group(
        dep_group,
        optional_dependencies,
        dependency_groups,
        resolved,
        parents,
        project_name,
        Ghost(st),
    ) {
        Ok(v) => Ok(v),
        Err(ce) => Err(from_core(ce)),
    }
}

/// Resolves every optional-dependency extra and every dependency group
/// into flat requirement lists, exactly as the mirror [`s_resolve`] says:
/// extras first, in table order, then dependency groups, which may
/// reference both dependency groups and optional dependencies. On failure
/// no partial result is observable.
///
/// A name defined as a key in both tables is not an error here: the two
/// namespaces are kept apart by their table tag and resolve
/// independently, each into its own result map.
pub fn resolve(
    self_reference_name: Option<&str>,
    optional_dependencies: Option<&crate::OptionalDependencies>,
    dependency_groups: Option<&crate::DependencyGroups>,
) -> (r: Result<crate::ResolvedDependencies, ResolveError>)
    ensures
        match s_resolve(
            opt_table_view(optional_dependencies),
            grp_table_view(dependency_groups),
            proj_view(self_reference_name),
        ) {
            AllOut::Done { ropt, rgrp } => r matches Ok(rd) && rd.optional_dependencies@ == ropt
                && rd.dependency_groups@ == rgrp,
            AllOut::Fail { err } => r matches Err(e) && e@ == kind_of_err(err),
        },
{
    let ghost t_v = opt_table_view(optional_dependencies);
    let ghost g_v = grp_table_view(dependency_groups);
    let ghost projv = proj_view(self_reference_name);

    let mut resolved = crate::ResolvedDependencies::default();
    proof {
        assert(resolved.optional_dependencies@ =~= Seq::<(Seq<char>, Seq<ReqModel>)>::empty());
        assert(resolved.dependency_groups@ =~= Seq::<(Seq<char>, Seq<ReqModel>)>::empty());
    }

    if let Some(table) = optional_dependencies {
        let mut i: usize = 0;
        while i < table.len()
            invariant
                i <= table@.len(),
                t_v == table@,
                t_v == opt_table_view(optional_dependencies),
                g_v == grp_table_view(dependency_groups),
                projv == proj_view(self_reference_name),
                resolved.dependency_groups@ == Seq::<(Seq<char>, Seq<ReqModel>)>::empty(),
                s_opt_keys(t_v, 0, Seq::<(Seq<char>, Seq<ReqModel>)>::empty(), projv)
                    == s_opt_keys(t_v, i as int, resolved.optional_dependencies@, projv),
            decreases table@.len() - i,
        {
            let key = table.key_at(i);
            proof {
                lemma_norm_get_key(t_v, i as int);
            }
            let mut parents: Vec<Item> = Vec::new();
            proof {
                assert(parents.deep_view() =~= Seq::<ItemModel>::empty());
            }
            let ghost st = parents.deep_view();
            let outcome = core_resolve_extra(
                key.as_str(),
                table,
                &mut resolved,
                &mut parents,
                self_reference_name,
                Ghost(st),
            );
            match outcome {
                Ok(_) => {},
                Err(ce) => {
                    return Err(from_core(ce));
                },
            }
            i = i + 1;
        }
    }
    proof {
        assert(s_opt_keys(t_v, t_v.len() as int, resolved.optional_dependencies@, projv)
            == OptPassOut::Done { ropt: resolved.optional_dependencies@ });
    }
    let ghost ropt_mid = resolved.optional_dependencies@;

    let empty_table = crate::OptionalDependencies::new();
    let lookup_table = match optional_dependencies {
        Some(t) => t,
        None => &empty_table,
    };
    proof {
        assert(lookup_table@ == t_v);
    }

    if let Some(groups) = dependency_groups {
        let mut i: usize = 0;
        while i < groups.len()
            invariant
                i <= groups@.len(),
                t_v == lookup_table@,
                t_v == opt_table_view(optional_dependencies),
                g_v == groups@,
                g_v == grp_table_view(dependency_groups),
                projv == proj_view(self_reference_name),
                s_opt_keys(t_v, 0, Seq::<(Seq<char>, Seq<ReqModel>)>::empty(), projv)
                    == (OptPassOut::Done { ropt: ropt_mid }),
                s_grp_keys(t_v, g_v, 0, ropt_mid, Seq::<(Seq<char>, Seq<ReqModel>)>::empty(), projv)
                    == s_grp_keys(
                    t_v,
                    g_v,
                    i as int,
                    resolved.optional_dependencies@,
                    resolved.dependency_groups@,
                    projv,
                ),
            decreases groups@.len() - i,
        {
            let key = groups.key_at(i);
            proof {
                lemma_assoc_get_key(g_v, i as int);
            }
            let mut parents: Vec<Item> = Vec::new();
            proof {
                assert(parents.deep_view() =~= Seq::<ItemModel>::empty());
            }
            let ghost st = parents.deep_view();
            let outcome = core_resolve_group(
                key.as_str(),
                lookup_table,
                groups,
                &mut resolved,
                &mut parents,
                self_reference_name,
                Ghost(st),
            );
            match outcome {
                Ok(_) => {},
                Err(ce) => {
                    return Err(from_core(ce));
                },
            }
            i = i + 1;
        }
        proof {
            assert(s_grp_keys(
                t_v,
                g_v,
                g_v.len() as int,
                resolved.optional_dependencies@,
                resolved.dependency_groups@,
                projv,
            ) == GrpPassOut::Done {
                ropt: resolved.optional_dependencies@,
                rgrp: resolved.dependency_groups@,
            });
        }
    }
    Ok(resolved)
}

/// The project name a manifest declares, if any.
pub open spec fn toml_proj_name(p: &crate::PyProjectToml) -> Option<Seq<char>> {
    match p.project {
        Option::Some(pr) => Option::Some(pr.name@),
        Option::None => Option::None,
    }
}

/// The optional-dependencies table a manifest declares, or the empty
/// table.
pub open spec fn toml_opt_view(p: &crate::PyProjectToml) -> Seq<(Seq<char>, Seq<ReqModel>)> {
    match p.project {
        Option::Some(pr) => match pr.optional_dependencies {
            Option::Some(t) => t@,
            Option::None => Seq::<(Seq<char>, Seq<ReqModel>)>::empty(),
        },
        Option::None => Seq::<(Seq<char>, Seq<ReqModel>)>::empty(),
    }
}

/// The dependency-groups table a manifest declares, or the empty table.
pub open spec fn toml_grp_view(p: &crate::PyProjectToml) -> Seq<
    (Seq<char>, Seq<crate::SpecifierModel>),
> {
    match p.dependency_groups {
        Option::Some(g) => g@,
        Option::None => Seq::<(Seq<char>, Seq<crate::SpecifierModel>)>::empty(),
    }
}

impl crate::PyProjectToml {
    /// Resolve the optional dependencies (extras) and dependency groups
    /// into flat lists of requirements.
    ///
    /// All groups are resolved recursively, including those that
    /// reference other groups. An error is returned if there is a cycle
    /// in the groups, or if a group references a group that does not
    /// exist. Resolving self-referential optional dependencies requires
    /// `project.name` to be set.
    pub fn resolve(&self) -> (r: Result<crate::ResolvedDependencies, ResolveError>)
        ensures
            match s_resolve(toml_opt_view(self), toml_grp_view(self), toml_proj_name(self)) {
                AllOut::Done { ropt, rgrp } => r matches Ok(rd) && rd.optional_dependencies@
                    == ropt && rd.dependency_groups@ == rgrp,
                AllOut::Fail { err } => r matches Err(e) && e@ == kind_of_err(err),
            },
    {
        let self_reference_name = match &self.project {
            Some(p) => Some(p.name.as_str()),
            None => None,
        };
        let optional_dependencies = match &self.project {
            Some(p) => p.optional_dependencies.as_ref(),
            None => None,
        };
        let dependency_groups = self.dependency_groups.as_ref();
        proof {
            assert(proj_view(self_reference_name) == toml_proj_name(self));
            assert(opt_table_view(optional_dependencies) == toml_opt_view(self));
            assert(grp_table_view(dependency_groups) == toml_grp_view(self));
        }
        resolve(self_reference_name, optional_dependencies, dependency_groups)
    }
}

} // verus!
