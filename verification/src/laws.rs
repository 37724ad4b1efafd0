//! Properties of the resolver, stated and proved against the mirror
//! functions its contracts use.

use vstd::prelude::*;

use crate::assoc_get;
use crate::assoc_insert;
use crate::ReqModel;
use crate::resolution::s_extra;
use crate::resolution::s_extra_entries;
use crate::resolution::s_resolve;
use crate::resolution::norm_get;
use crate::resolution::opt_items;
use crate::resolution::extras_in;
use crate::resolution::lemma_norm_get_extras_in;
use crate::resolution::AllOut;
use crate::resolution::ExtraOut;
use crate::resolution::ItemModel;
use crate::resolution::count_new;
use crate::resolution::extras_rem;
use crate::resolution::lemma_count_new_push;
use crate::resolution::s_group;
use crate::resolution::s_group_entries;
use crate::resolution::s_opt_keys;
use crate::resolution::s_grp_keys;
use crate::resolution::gextras_rem;
use crate::resolution::grp_items;
use crate::resolution::includes_in;
use crate::resolution::lemma_assoc_get_includes_in;
use crate::resolution::GroupOut;
use crate::resolution::OptPassOut;
use crate::resolution::GrpPassOut;

verus! {

/// Resolution is a pure function of its inputs: two resolutions of the
/// same tables with the same project name yield structurally identical
/// output, maps and errors alike.
pub proof fn lemma_resolution_deterministic(
    t: Seq<(Seq<char>, Seq<ReqModel>)>,
    g: Seq<(Seq<char>, Seq<crate::SpecifierModel>)>,
    proj: Option<Seq<char>>,
    first: AllOut,
    second: AllOut,
)
    requires
        first == s_resolve(t, g, proj),
        second == s_resolve(t, g, proj),
    ensures
        first == second,
{
}

/// A group already resolved is answered from the cache: the same list is
/// shared by every subsequent referencer, and nothing is recomputed or
/// changed.
pub proof fn lemma_memoized_list_shared(
    t: Seq<(Seq<char>, Seq<ReqModel>)>,
    k: Seq<char>,
    ropt: Seq<(Seq<char>, Seq<ReqModel>)>,
    parents: Seq<ItemModel>,
    proj: Option<Seq<char>>,
    cached: Seq<ReqModel>,
)
    requires
        assoc_get(ropt, k) == Some(cached),
    ensures
        s_extra(t, k, ropt, parents, proj) == (ExtraOut::Done { list: cached, ropt }),
{
}

/// Resolving the plain rows `reqs[i..]` appends them in order.
proof fn lemma_plain_entries(
    t: Seq<(Seq<char>, Seq<ReqModel>)>,
    reqs: Seq<ReqModel>,
    i: int,
    acc: Seq<ReqModel>,
    ropt: Seq<(Seq<char>, Seq<ReqModel>)>,
    parents: Seq<ItemModel>,
    proj: Option<Seq<char>>,
)
    requires
        0 <= i <= reqs.len(),
        extras_in(opt_items(t), reqs),
        forall|x: int| 0 <= x < reqs.len() ==> proj != Some(#[trigger] reqs[x].name),
    ensures
        s_extra_entries(t, reqs, i, 0, acc, ropt, parents, proj) == (ExtraOut::Done {
            list: acc + reqs.skip(i),
            ropt,
        }),
    decreases reqs.len() - i,
{
    if i >= reqs.len() {
        assert(acc + reqs.skip(i) =~= acc);
    } else {
        lemma_plain_entries(t, reqs, i + 1, acc.push(reqs[i]), ropt, parents, proj);
        assert(acc.push(reqs[i]) + reqs.skip(i + 1) =~= acc + reqs.skip(i));
    }
}

/// Order preservation: a group whose entries are plain requirements, none
/// of them a self-reference, resolves to exactly those requirements in
/// that order, and only its own cache entry is added.
pub proof fn lemma_order_preserved(
    t: Seq<(Seq<char>, Seq<ReqModel>)>,
    k: Seq<char>,
    ropt: Seq<(Seq<char>, Seq<ReqModel>)>,
    parents: Seq<ItemModel>,
    proj: Option<Seq<char>>,
)
    requires
        norm_get(t, k) is Some,
        forall|x: int|
            0 <= x < norm_get(t, k)->Some_0.len() ==> proj != Some(
                #[trigger] norm_get(t, k)->Some_0[x].name,
            ),
        assoc_get(ropt, k) is None,
        !parents.contains(ItemModel::Extra(k)),
    ensures
        s_extra(t, k, ropt, parents, proj) == (ExtraOut::Done {
            list: norm_get(t, k)->Some_0,
            ropt: assoc_insert(ropt, k, norm_get(t, k)->Some_0),
        }),
{
    let reqs = norm_get(t, k)->Some_0;
    lemma_norm_get_extras_in(t, k);
    lemma_plain_entries(
        t,
        reqs,
        0,
        Seq::<ReqModel>::empty(),
        ropt,
        parents.push(ItemModel::Extra(k)),
        proj,
    );
    assert(Seq::<ReqModel>::empty() + reqs.skip(0) =~= reqs);
}

/// Every binding of the first cache is present, unchanged, in the second.
pub open spec fn preserves_bindings(
    r0: Seq<(Seq<char>, Seq<ReqModel>)>,
    r1: Seq<(Seq<char>, Seq<ReqModel>)>,
) -> bool {
    forall|k2: Seq<char>|
        #[trigger] assoc_get(r0, k2) is Some ==> assoc_get(r1, k2) == assoc_get(r0, k2)
}

/// Every name on the stack that the first cache leaves unbound, the
/// second leaves unbound too.
pub open spec fn stack_unbound_kept(
    r0: Seq<(Seq<char>, Seq<ReqModel>)>,
    r1: Seq<(Seq<char>, Seq<ReqModel>)>,
    parents: Seq<ItemModel>,
) -> bool {
    forall|nm: Seq<char>|
        parents.contains(ItemModel::Extra(nm)) && #[trigger] assoc_get(r0, nm) is None
            ==> assoc_get(r1, nm) is None
}

/// What an insert does to every lookup: the inserted key is bound to the
/// new value, every other key is untouched.
pub proof fn lemma_assoc_insert_get<V>(m: Seq<(Seq<char>, V)>, k: Seq<char>, v: V, k2: Seq<char>)
    ensures
        assoc_get(assoc_insert(m, k, v), k2) == if k2 == k {
            Some(v)
        } else {
            assoc_get(m, k2)
        },
    decreases m.len(),
{
    if m.len() == 0 {
        assert(assoc_insert(m, k, v) =~= seq![(k, v)]);
        assert(seq![(k, v)].drop_first() =~= Seq::<(Seq<char>, V)>::empty());
        assert(seq![(k, v)][0].0 == k);
        assert(assoc_get(Seq::<(Seq<char>, V)>::empty(), k2) is None);
        assert(assoc_get(assoc_insert(m, k, v), k2) == if k2 == k {
            Some(v)
        } else {
            assoc_get(m, k2)
        });
    } else if m[0].0 == k {
        let r = seq![(m[0].0, v)] + m.drop_first();
        assert(r[0] == (m[0].0, v));
        assert(r.len() == m.len());
        assert(r.drop_first() =~= m.drop_first());
        assert(assoc_insert(m, k, v) == r);
        if k2 == k {
            assert(r[0].0 == k2);
            assert(assoc_get(r, k2) == Some(v));
        } else {
            assert(r[0].0 != k2);
            assert(assoc_get(r, k2) == assoc_get(m.drop_first(), k2));
            assert(assoc_get(m, k2) == assoc_get(m.drop_first(), k2));
        }
    } else {
        lemma_assoc_insert_get(m.drop_first(), k, v, k2);
        let r = seq![m[0]] + assoc_insert(m.drop_first(), k, v);
        assert(r[0] == m[0]);
        assert(r.len() >= 1);
        assert(r.drop_first() =~= assoc_insert(m.drop_first(), k, v));
        assert(assoc_insert(m, k, v) == r);
        if k2 == m[0].0 {
            assert(assoc_get(r, k2) == Some(m[0].1));
            assert(assoc_get(m, k2) == Some(m[0].1));
        } else {
            assert(assoc_get(r, k2) == assoc_get(assoc_insert(m.drop_first(), k, v), k2));
            assert(assoc_get(m, k2) == assoc_get(m.drop_first(), k2));
        }
    }
}

/// Walking the rows of an extra keeps every cached binding, and binds no
/// name still on the ancestor stack.
proof fn lemma_entries_stable(
    t: Seq<(Seq<char>, Seq<ReqModel>)>,
    reqs: Seq<ReqModel>,
    i: int,
    j: int,
    acc: Seq<ReqModel>,
    ropt: Seq<(Seq<char>, Seq<ReqModel>)>,
    parents: Seq<ItemModel>,
    proj: Option<Seq<char>>,
)
    requires
        0 <= i <= reqs.len(),
        0 <= j,
        extras_in(opt_items(t), reqs),
    ensures
        match s_extra_entries(t, reqs, i, j, acc, ropt, parents, proj) {
            ExtraOut::Done { list, ropt: r1 } => preserves_bindings(ropt, r1)
                && stack_unbound_kept(ropt, r1, parents),
            ExtraOut::Fail { err, ropt: r1, parents: p1 } => preserves_bindings(ropt, r1)
                && stack_unbound_kept(ropt, r1, parents),
        },
    decreases count_new(opt_items(t), parents), reqs.len() - i, extras_rem(reqs, i, j, proj),
{
    if i >= reqs.len() {
    } else {
        let r = reqs[i];
        if proj == Some(r.name) {
            if j >= r.extras.len() {
                lemma_entries_stable(t, reqs, i + 1, 0, acc, ropt, parents, proj);
            } else {
                let e = r.extras[j];
                match assoc_get(ropt, e) {
                    Option::Some(l) => {
                        lemma_entries_stable(t, reqs, i, j + 1, acc + l, ropt, parents, proj);
                    },
                    Option::None => {
                        match norm_get(t, e) {
                            Option::None => {},
                            Option::Some(reqs2) => {
                                if parents.contains(ItemModel::Extra(e)) {
                                } else {
                                    lemma_count_new_push(
                                        opt_items(t),
                                        parents,
                                        ItemModel::Extra(e),
                                    );
                                    lemma_norm_get_extras_in(t, e);
                                    let pushed = parents.push(ItemModel::Extra(e));
                                    assert forall|nm: Seq<char>|
                                        parents.contains(ItemModel::Extra(nm)) implies
                                        pushed.contains(ItemModel::Extra(nm)) by {
                                        let x = choose|x: int|
                                            0 <= x < parents.len() && parents[x]
                                                == ItemModel::Extra(nm);
                                        assert(pushed[x] == ItemModel::Extra(nm));
                                    }
                                    assert(pushed[parents.len() as int] == ItemModel::Extra(e));
                                    lemma_entries_stable(
                                        t,
                                        reqs2,
                                        0,
                                        0,
                                        Seq::<ReqModel>::empty(),
                                        ropt,
                                        pushed,
                                        proj,
                                    );
                                    let inner = s_extra_entries(
                                        t,
                                        reqs2,
                                        0,
                                        0,
                                        Seq::<ReqModel>::empty(),
                                        ropt,
                                        pushed,
                                        proj,
                                    );
                                    match inner {
                                        ExtraOut::Done { list: l2, ropt: ropt2 } => {
                                            assert(assoc_get(ropt2, e) is None);
                                            let inserted = assoc_insert(ropt2, e, l2);
                                            assert forall|k2: Seq<char>| true implies #[trigger]
                                                assoc_get(inserted, k2) == if k2 == e {
                                                Some(l2)
                                            } else {
                                                assoc_get(ropt2, k2)
                                            } by {
                                                lemma_assoc_insert_get(ropt2, e, l2, k2);
                                            }
                                            lemma_entries_stable(
                                                t,
                                                reqs,
                                                i,
                                                j + 1,
                                                acc + l2,
                                                inserted,
                                                parents,
                                                proj,
                                            );
                                            let rest = s_extra_entries(
                                                t,
                                                reqs,
                                                i,
                                                j + 1,
                                                acc + l2,
                                                inserted,
                                                parents,
                                                proj,
                                            );
                                            assert(s_extra_entries(
                                                t,
                                                reqs,
                                                i,
                                                j,
                                                acc,
                                                ropt,
                                                parents,
                                                proj,
                                            ) == rest);
                                            match rest {
                                                ExtraOut::Done { list: lf, ropt: rf } => {
                                                    assert forall|k2: Seq<char>| #[trigger]
                                                        assoc_get(ropt, k2) is Some implies
                                                        assoc_get(rf, k2) == assoc_get(
                                                        ropt,
                                                        k2,
                                                    ) by {
                                                        assert(assoc_get(ropt2, k2) == assoc_get(
                                                            ropt,
                                                            k2,
                                                        ));
                                                        assert(k2 != e);
                                                        assert(assoc_get(inserted, k2)
                                                            == assoc_get(ropt2, k2));
                                                        assert(assoc_get(rf, k2) == assoc_get(
                                                            inserted,
                                                            k2,
                                                        ));
                                                    }
                                                    assert forall|nm: Seq<char>|
                                                        parents.contains(ItemModel::Extra(nm))
                                                            && #[trigger] assoc_get(ropt, nm)
                                                            is None implies assoc_get(rf, nm)
                                                        is None by {
                                                        assert(pushed.contains(
                                                            ItemModel::Extra(nm),
                                                        ));
                                                        assert(assoc_get(ropt2, nm) is None);
                                                        assert(nm != e);
                                                        assert(assoc_get(inserted, nm)
                                                            == assoc_get(ropt2, nm));
                                                        assert(assoc_get(rf, nm) is None);
                                                    }
                                                },
                                                ExtraOut::Fail { err: ef, ropt: rf, parents: pf } => {
                                                    assert forall|k2: Seq<char>| #[trigger]
                                                        assoc_get(ropt, k2) is Some implies
                                                        assoc_get(rf, k2) == assoc_get(
                                                        ropt,
                                                        k2,
                                                    ) by {
                                                        assert(assoc_get(ropt2, k2) == assoc_get(
                                                            ropt,
                                                            k2,
                                                        ));
                                                        assert(k2 != e);
                                                        assert(assoc_get(inserted, k2)
                                                            == assoc_get(ropt2, k2));
                                                    }
                                                    assert forall|nm: Seq<char>|
                                                        parents.contains(ItemModel::Extra(nm))
                                                            && #[trigger] assoc_get(ropt, nm)
                                                            is None implies assoc_get(rf, nm)
                                                        is None by {
                                                        assert(pushed.contains(
                                                            ItemModel::Extra(nm),
                                                        ));
                                                        assert(assoc_get(ropt2, nm) is None);
                                                        assert(nm != e);
                                                        assert(assoc_get(inserted, nm)
                                                            == assoc_get(ropt2, nm));
                                                    }
                                                },
                                            }
                                        },
                                        ExtraOut::Fail { err: e1, ropt: r1, parents: p1 } => {
                                            assert forall|nm: Seq<char>|
                                                parents.contains(ItemModel::Extra(nm))
                                                    && #[trigger] assoc_get(ropt, nm) is None
                                                implies assoc_get(r1, nm) is None by {
                                                assert(pushed.contains(ItemModel::Extra(nm)));
                                            }
                                        },
                                    }
                                }
                            },
                        }
                    },
                }
            }
        } else {
            lemma_entries_stable(t, reqs, i + 1, 0, acc.push(r), ropt, parents, proj);
        }
    }
}

/// Memoization correctness: a binding already in the cache is kept, with
/// the same list, by any further resolution, whether it succeeds or
/// fails; together with [`lemma_memoized_list_shared`], a group
/// referenced from two different places resolves to the same list both
/// times.
pub proof fn lemma_memo_stable(
    t: Seq<(Seq<char>, Seq<ReqModel>)>,
    k: Seq<char>,
    ropt: Seq<(Seq<char>, Seq<ReqModel>)>,
    parents: Seq<ItemModel>,
    proj: Option<Seq<char>>,
    k2: Seq<char>,
)
    requires
        assoc_get(ropt, k2) is Some,
    ensures
        match s_extra(t, k, ropt, parents, proj) {
            ExtraOut::Done { list, ropt: r1 } => assoc_get(r1, k2) == assoc_get(ropt, k2),
            ExtraOut::Fail { err, ropt: r1, parents: p1 } => assoc_get(r1, k2) == assoc_get(
                ropt,
                k2,
            ),
        },
{
    match assoc_get(ropt, k) {
        Option::Some(_) => {},
        Option::None => {
            match norm_get(t, k) {
                Option::None => {},
                Option::Some(reqs) => {
                    if !parents.contains(ItemModel::Extra(k)) {
                        lemma_norm_get_extras_in(t, k);
                        let pushed = parents.push(ItemModel::Extra(k));
                        assert(pushed[parents.len() as int] == ItemModel::Extra(k));
                        lemma_entries_stable(
                            t,
                            reqs,
                            0,
                            0,
                            Seq::<ReqModel>::empty(),
                            ropt,
                            pushed,
                            proj,
                        );
                        match s_extra_entries(
                            t,
                            reqs,
                            0,
                            0,
                            Seq::<ReqModel>::empty(),
                            ropt,
                            pushed,
                            proj,
                        ) {
                            ExtraOut::Done { list, ropt: ropt1 } => {
                                assert(assoc_get(ropt1, k) is None);
                                assert(k2 != k);
                                lemma_assoc_insert_get(ropt1, k, list, k2);
                            },
                            ExtraOut::Fail { .. } => {},
                        }
                    }
                },
            }
        },
    }
}

/// No requirement of the list is named like the project: no
/// self-reference marker remains.
pub open spec fn list_free_of(list: Seq<ReqModel>, n: Seq<char>) -> bool {
    forall|x: int| 0 <= x < list.len() ==> (#[trigger] list[x]).name != n
}

/// Every list bound in the cache is free of self-reference markers.
pub open spec fn cache_free_of(r: Seq<(Seq<char>, Seq<ReqModel>)>, n: Seq<char>) -> bool {
    forall|k2: Seq<char>|
        match #[trigger] assoc_get(r, k2) {
            Option::Some(l) => list_free_of(l, n),
            Option::None => true,
        }
}

/// Concatenation keeps marker-freedom.
proof fn lemma_list_free_concat(a: Seq<ReqModel>, b: Seq<ReqModel>, n: Seq<char>)
    requires
        list_free_of(a, n),
        list_free_of(b, n),
    ensures
        list_free_of(a + b, n),
{
    assert forall|x: int| 0 <= x < (a + b).len() implies (#[trigger] (a + b)[x]).name != n by {
        if x < a.len() {
            assert((a + b)[x] == a[x]);
        } else {
            assert((a + b)[x] == b[x - a.len()]);
        }
    }
}

/// Walking the rows of an extra of a project named `n` yields lists free
/// of self-reference markers, and keeps the cache free of them.
proof fn lemma_entries_no_self(
    t: Seq<(Seq<char>, Seq<ReqModel>)>,
    reqs: Seq<ReqModel>,
    i: int,
    j: int,
    acc: Seq<ReqModel>,
    ropt: Seq<(Seq<char>, Seq<ReqModel>)>,
    parents: Seq<ItemModel>,
    n: Seq<char>,
)
    requires
        0 <= i <= reqs.len(),
        0 <= j,
        extras_in(opt_items(t), reqs),
        list_free_of(acc, n),
        cache_free_of(ropt, n),
    ensures
        match s_extra_entries(t, reqs, i, j, acc, ropt, parents, Some(n)) {
            ExtraOut::Done { list, ropt: r1 } => list_free_of(list, n) && cache_free_of(r1, n),
            ExtraOut::Fail { .. } => true,
        },
    decreases count_new(opt_items(t), parents), reqs.len() - i, extras_rem(reqs, i, j, Some(n)),
{
    let proj = Some(n);
    if i >= reqs.len() {
    } else {
        let r = reqs[i];
        if proj == Some(r.name) {
            if j >= r.extras.len() {
                lemma_entries_no_self(t, reqs, i + 1, 0, acc, ropt, parents, n);
            } else {
                let e = r.extras[j];
                match assoc_get(ropt, e) {
                    Option::Some(l) => {
                        assert(list_free_of(l, n));
                        lemma_list_free_concat(acc, l, n);
                        lemma_entries_no_self(t, reqs, i, j + 1, acc + l, ropt, parents, n);
                    },
                    Option::None => {
                        match norm_get(t, e) {
                            Option::None => {},
                            Option::Some(reqs2) => {
                                if parents.contains(ItemModel::Extra(e)) {
                                } else {
                                    lemma_count_new_push(
                                        opt_items(t),
                                        parents,
                                        ItemModel::Extra(e),
                                    );
                                    lemma_norm_get_extras_in(t, e);
                                    let pushed = parents.push(ItemModel::Extra(e));
                                    assert(pushed[parents.len() as int] == ItemModel::Extra(e));
                                    lemma_entries_no_self(
                                        t,
                                        reqs2,
                                        0,
                                        0,
                                        Seq::<ReqModel>::empty(),
                                        ropt,
                                        pushed,
                                        n,
                                    );
                                    match s_extra_entries(
                                        t,
                                        reqs2,
                                        0,
                                        0,
                                        Seq::<ReqModel>::empty(),
                                        ropt,
                                        pushed,
                                        proj,
                                    ) {
                                        ExtraOut::Done { list: l2, ropt: ropt2 } => {
                                            let inserted = assoc_insert(ropt2, e, l2);
                                            assert forall|k2: Seq<char>|
                                                match #[trigger] assoc_get(inserted, k2) {
                                                    Option::Some(l) => list_free_of(l, n),
                                                    Option::None => true,
                                                } by {
                                                lemma_assoc_insert_get(ropt2, e, l2, k2);
                                            }
                                            lemma_list_free_concat(acc, l2, n);
                                            lemma_entries_no_self(
                                                t,
                                                reqs,
                                                i,
                                                j + 1,
                                                acc + l2,
                                                inserted,
                                                parents,
                                                n,
                                            );
                                        },
                                        ExtraOut::Fail { .. } => {},
                                    }
                                }
                            },
                        }
                    },
                }
            }
        } else {
            assert(r.name != n);
            assert forall|x: int|
                0 <= x < acc.push(r).len() implies (#[trigger] acc.push(r)[x]).name != n by {
                if x < acc.len() {
                    assert(acc.push(r)[x] == acc[x]);
                }
            }
            lemma_entries_no_self(t, reqs, i + 1, 0, acc.push(r), ropt, parents, n);
        }
    }
}

/// Resolving one extra of a project named `n` yields a list free of
/// self-reference markers, and keeps the cache free of them.
pub proof fn lemma_extra_no_self(
    t: Seq<(Seq<char>, Seq<ReqModel>)>,
    k: Seq<char>,
    ropt: Seq<(Seq<char>, Seq<ReqModel>)>,
    parents: Seq<ItemModel>,
    n: Seq<char>,
)
    requires
        cache_free_of(ropt, n),
    ensures
        match s_extra(t, k, ropt, parents, Some(n)) {
            ExtraOut::Done { list, ropt: r1 } => list_free_of(list, n) && cache_free_of(r1, n),
            ExtraOut::Fail { .. } => true,
        },
{
    match assoc_get(ropt, k) {
        Option::Some(_) => {},
        Option::None => {
            match norm_get(t, k) {
                Option::None => {},
                Option::Some(reqs) => {
                    if !parents.contains(ItemModel::Extra(k)) {
                        lemma_norm_get_extras_in(t, k);
                        lemma_entries_no_self(
                            t,
                            reqs,
                            0,
                            0,
                            Seq::<ReqModel>::empty(),
                            ropt,
                            parents.push(ItemModel::Extra(k)),
                            n,
                        );
                        match s_extra_entries(
                            t,
                            reqs,
                            0,
                            0,
                            Seq::<ReqModel>::empty(),
                            ropt,
                            parents.push(ItemModel::Extra(k)),
                            Some(n),
                        ) {
                            ExtraOut::Done { list, ropt: ropt1 } => {
                                assert forall|k2: Seq<char>|
                                    match #[trigger] assoc_get(
                                        assoc_insert(ropt1, k, list),
                                        k2,
                                    ) {
                                        Option::Some(l) => list_free_of(l, n),
                                        Option::None => true,
                                    } by {
                                    lemma_assoc_insert_get(ropt1, k, list, k2);
                                }
                            },
                            ExtraOut::Fail { .. } => {},
                        }
                    }
                },
            }
        },
    }
}

/// Walking the rows of a dependency group of a project named `n` yields
/// lists free of self-reference markers, and keeps both caches free of
/// them.
proof fn lemma_group_entries_no_self(
    t: Seq<(Seq<char>, Seq<ReqModel>)>,
    g: Seq<(Seq<char>, Seq<crate::SpecifierModel>)>,
    ss: Seq<crate::SpecifierModel>,
    i: int,
    j: int,
    acc: Seq<ReqModel>,
    ropt: Seq<(Seq<char>, Seq<ReqModel>)>,
    rgrp: Seq<(Seq<char>, Seq<ReqModel>)>,
    parents: Seq<ItemModel>,
    n: Seq<char>,
)
    requires
        0 <= i <= ss.len(),
        0 <= j,
        includes_in(grp_items(g), ss),
        list_free_of(acc, n),
        cache_free_of(ropt, n),
        cache_free_of(rgrp, n),
    ensures
        match s_group_entries(t, g, ss, i, j, acc, ropt, rgrp, parents, Some(n)) {
            GroupOut::Done { list, ropt: r1, rgrp: g1 } => list_free_of(list, n) && cache_free_of(
                r1,
                n,
            ) && cache_free_of(g1, n),
            GroupOut::Fail { .. } => true,
        },
    decreases count_new(grp_items(g), parents), ss.len() - i, gextras_rem(ss, i, j, Some(n)),
{
    let proj = Some(n);
    if i >= ss.len() {
    } else {
        match ss[i] {
            crate::SpecifierModel::Requirement(r) => {
                if proj == Some(r.name) {
                    if j >= r.extras.len() {
                        lemma_group_entries_no_self(
                            t,
                            g,
                            ss,
                            i + 1,
                            0,
                            acc,
                            ropt,
                            rgrp,
                            parents,
                            n,
                        );
                    } else {
                        lemma_extra_no_self(t, r.extras[j], ropt, parents, n);
                        match s_extra(t, r.extras[j], ropt, parents, proj) {
                            ExtraOut::Done { list, ropt: ropt2 } => {
                                lemma_list_free_concat(acc, list, n);
                                lemma_group_entries_no_self(
                                    t,
                                    g,
                                    ss,
                                    i,
                                    j + 1,
                                    acc + list,
                                    ropt2,
                                    rgrp,
                                    parents,
                                    n,
                                );
                            },
                            ExtraOut::Fail { .. } => {},
                        }
                    }
                } else {
                    assert(r.name != n);
                    assert forall|x: int|
                        0 <= x < acc.push(r).len() implies (#[trigger] acc.push(r)[x]).name
                        != n by {
                        if x < acc.len() {
                            assert(acc.push(r)[x] == acc[x]);
                        }
                    }
                    lemma_group_entries_no_self(
                        t,
                        g,
                        ss,
                        i + 1,
                        0,
                        acc.push(r),
                        ropt,
                        rgrp,
                        parents,
                        n,
                    );
                }
            },
            crate::SpecifierModel::Include(nm) => {
                match assoc_get(rgrp, nm) {
                    Option::Some(l) => {
                        assert(list_free_of(l, n));
                        lemma_list_free_concat(acc, l, n);
                        lemma_group_entries_no_self(
                            t,
                            g,
                            ss,
                            i + 1,
                            0,
                            acc + l,
                            ropt,
                            rgrp,
                            parents,
                            n,
                        );
                    },
                    Option::None => {
                        match assoc_get(g, nm) {
                            Option::None => {},
                            Option::Some(ss2) => {
                                if parents.contains(ItemModel::Group(nm)) {
                                } else {
                                    lemma_count_new_push(
                                        grp_items(g),
                                        parents,
                                        ItemModel::Group(nm),
                                    );
                                    lemma_assoc_get_includes_in(g, nm);
                                    lemma_group_entries_no_self(
                                        t,
                                        g,
                                        ss2,
                                        0,
                                        0,
                                        Seq::<ReqModel>::empty(),
                                        ropt,
                                        rgrp,
                                        parents.push(ItemModel::Group(nm)),
                                        n,
                                    );
                                    match s_group_entries(
                                        t,
                                        g,
                                        ss2,
                                        0,
                                        0,
                                        Seq::<ReqModel>::empty(),
                                        ropt,
                                        rgrp,
                                        parents.push(ItemModel::Group(nm)),
                                        proj,
                                    ) {
                                        GroupOut::Done { list: l2, ropt: ropt2, rgrp: rgrp2 } => {
                                            let inserted = assoc_insert(rgrp2, nm, l2);
                                            assert forall|k2: Seq<char>|
                                                match #[trigger] assoc_get(inserted, k2) {
                                                    Option::Some(l) => list_free_of(l, n),
                                                    Option::None => true,
                                                } by {
                                                lemma_assoc_insert_get(rgrp2, nm, l2, k2);
                                            }
                                            lemma_list_free_concat(acc, l2, n);
                                            lemma_group_entries_no_self(
                                                t,
                                                g,
                                                ss,
                                                i + 1,
                                                0,
                                                acc + l2,
                                                ropt2,
                                                inserted,
                                                parents,
                                                n,
                                            );
                                        },
                                        GroupOut::Fail { .. } => {},
                                    }
                                }
                            },
                        }
                    },
                }
            },
        }
    }
}

/// Resolving one dependency group of a project named `n` yields a list
/// free of self-reference markers, and keeps both caches free of them.
pub proof fn lemma_group_no_self(
    t: Seq<(Seq<char>, Seq<ReqModel>)>,
    g: Seq<(Seq<char>, Seq<crate::SpecifierModel>)>,
    name: Seq<char>,
    ropt: Seq<(Seq<char>, Seq<ReqModel>)>,
    rgrp: Seq<(Seq<char>, Seq<ReqModel>)>,
    parents: Seq<ItemModel>,
    n: Seq<char>,
)
    requires
        cache_free_of(ropt, n),
        cache_free_of(rgrp, n),
    ensures
        match s_group(t, g, name, ropt, rgrp, parents, Some(n)) {
            GroupOut::Done { list, ropt: r1, rgrp: g1 } => list_free_of(list, n) && cache_free_of(
                r1,
                n,
            ) && cache_free_of(g1, n),
            GroupOut::Fail { .. } => true,
        },
{
    match assoc_get(rgrp, name) {
        Option::Some(_) => {},
        Option::None => {
            match assoc_get(g, name) {
                Option::None => {},
                Option::Some(ss) => {
                    if !parents.contains(ItemModel::Group(name)) {
                        lemma_assoc_get_includes_in(g, name);
                        lemma_group_entries_no_self(
                            t,
                            g,
                            ss,
                            0,
                            0,
                            Seq::<ReqModel>::empty(),
                            ropt,
                            rgrp,
                            parents.push(ItemModel::Group(name)),
                            n,
                        );
                        match s_group_entries(
                            t,
                            g,
                            ss,
                            0,
                            0,
                            Seq::<ReqModel>::empty(),
                            ropt,
                            rgrp,
                            parents.push(ItemModel::Group(name)),
                            Some(n),
                        ) {
                            GroupOut::Done { list, ropt: ropt1, rgrp: rgrp1 } => {
                                assert forall|k2: Seq<char>|
                                    match #[trigger] assoc_get(
                                        assoc_insert(rgrp1, name, list),
                                        k2,
                                    ) {
                                        Option::Some(l) => list_free_of(l, n),
                                        Option::None => true,
                                    } by {
                                    lemma_assoc_insert_get(rgrp1, name, list, k2);
                                }
                            },
                            GroupOut::Fail { .. } => {},
                        }
                    }
                },
            }
        },
    }
}

/// Resolving the keys of the optional table keeps the cache free of
/// self-reference markers.
proof fn lemma_opt_keys_no_self(
    t: Seq<(Seq<char>, Seq<ReqModel>)>,
    i: int,
    ropt: Seq<(Seq<char>, Seq<ReqModel>)>,
    n: Seq<char>,
)
    requires
        0 <= i <= t.len(),
        cache_free_of(ropt, n),
    ensures
        match s_opt_keys(t, i, ropt, Some(n)) {
            OptPassOut::Done { ropt: r1 } => cache_free_of(r1, n),
            OptPassOut::Fail { .. } => true,
        },
    decreases t.len() - i,
{
    if i < t.len() {
        lemma_extra_no_self(t, t[i].0, ropt, Seq::<ItemModel>::empty(), n);
        match s_extra(t, t[i].0, ropt, Seq::<ItemModel>::empty(), Some(n)) {
            ExtraOut::Done { list, ropt: r2 } => {
                lemma_opt_keys_no_self(t, i + 1, r2, n);
            },
            ExtraOut::Fail { .. } => {},
        }
    }
}

/// Resolving the keys of the dependency-groups table keeps both caches
/// free of self-reference markers.
proof fn lemma_grp_keys_no_self(
    t: Seq<(Seq<char>, Seq<ReqModel>)>,
    g: Seq<(Seq<char>, Seq<crate::SpecifierModel>)>,
    i: int,
    ropt: Seq<(Seq<char>, Seq<ReqModel>)>,
    rgrp: Seq<(Seq<char>, Seq<ReqModel>)>,
    n: Seq<char>,
)
    requires
        0 <= i <= g.len(),
        cache_free_of(ropt, n),
        cache_free_of(rgrp, n),
    ensures
        match s_grp_keys(t, g, i, ropt, rgrp, Some(n)) {
            GrpPassOut::Done { ropt: r1, rgrp: g1 } => cache_free_of(r1, n) && cache_free_of(
                g1,
                n,
            ),
            GrpPassOut::Fail { .. } => true,
        },
    decreases g.len() - i,
{
    if i < g.len() {
        lemma_group_no_self(t, g, g[i].0, ropt, rgrp, Seq::<ItemModel>::empty(), n);
        match s_group(t, g, g[i].0, ropt, rgrp, Seq::<ItemModel>::empty(), Some(n)) {
            GroupOut::Done { list, ropt: r2, rgrp: g2 } => {
                lemma_grp_keys_no_self(t, g, i + 1, r2, g2, n);
            },
            GroupOut::Fail { .. } => {},
        }
    }
}

/// For a project named `n`, a successful full resolution returns only
/// concrete requirements: every list of both result maps is free of
/// self-reference markers, and include entries cannot appear because the
/// results hold requirements, not group specifiers. Together with the
/// `decreases` clauses of the resolver this is the well-formed-input
/// guarantee: resolution terminates and flattens completely.
pub proof fn lemma_resolution_fully_flat(
    t: Seq<(Seq<char>, Seq<ReqModel>)>,
    g: Seq<(Seq<char>, Seq<crate::SpecifierModel>)>,
    n: Seq<char>,
)
    ensures
        match s_resolve(t, g, Some(n)) {
            AllOut::Done { ropt, rgrp } => cache_free_of(ropt, n) && cache_free_of(rgrp, n),
            AllOut::Fail { .. } => true,
        },
{
    let e = Seq::<(Seq<char>, Seq<ReqModel>)>::empty();
    assert(cache_free_of(e, n)) by {
        assert forall|k2: Seq<char>|
            match #[trigger] assoc_get(e, k2) {
                Option::Some(l) => list_free_of(l, n),
                Option::None => true,
            } by {
            assert(assoc_get(e, k2) is None);
        }
    }
    lemma_opt_keys_no_self(t, 0, e, n);
    match s_opt_keys(t, 0, e, Some(n)) {
        OptPassOut::Done { ropt } => {
            lemma_grp_keys_no_self(t, g, 0, ropt, e, n);
        },
        OptPassOut::Fail { .. } => {},
    }
}

/// Every group name on the stack that the first cache leaves unbound, the
/// second leaves unbound too.
pub open spec fn group_stack_unbound_kept(
    r0: Seq<(Seq<char>, Seq<ReqModel>)>,
    r1: Seq<(Seq<char>, Seq<ReqModel>)>,
    parents: Seq<ItemModel>,
) -> bool {
    forall|nm: Seq<char>|
        parents.contains(ItemModel::Group(nm)) && #[trigger] assoc_get(r0, nm) is None
            ==> assoc_get(r1, nm) is None
}

/// Resolving one extra keeps every cached binding, and binds no extra
/// name still on the ancestor stack.
pub proof fn lemma_extra_stable(
    t: Seq<(Seq<char>, Seq<ReqModel>)>,
    k: Seq<char>,
    ropt: Seq<(Seq<char>, Seq<ReqModel>)>,
    parents: Seq<ItemModel>,
    proj: Option<Seq<char>>,
)
    ensures
        match s_extra(t, k, ropt, parents, proj) {
            ExtraOut::Done { list, ropt: r1 } => preserves_bindings(ropt, r1)
                && stack_unbound_kept(ropt, r1, parents),
            ExtraOut::Fail { err, ropt: r1, parents: p1 } => preserves_bindings(ropt, r1)
                && stack_unbound_kept(ropt, r1, parents),
        },
{
    match assoc_get(ropt, k) {
        Option::Some(_) => {},
        Option::None => {
            match norm_get(t, k) {
                Option::None => {},
                Option::Some(reqs) => {
                    if !parents.contains(ItemModel::Extra(k)) {
                        lemma_norm_get_extras_in(t, k);
                        let pushed = parents.push(ItemModel::Extra(k));
                        assert forall|nm: Seq<char>|
                            parents.contains(ItemModel::Extra(nm)) implies pushed.contains(
                            ItemModel::Extra(nm),
                        ) by {
                            let x = choose|x: int|
                                0 <= x < parents.len() && parents[x] == ItemModel::Extra(nm);
                            assert(pushed[x] == ItemModel::Extra(nm));
                        }
                        assert(pushed[parents.len() as int] == ItemModel::Extra(k));
                        lemma_entries_stable(
                            t,
                            reqs,
                            0,
                            0,
                            Seq::<ReqModel>::empty(),
                            ropt,
                            pushed,
                            proj,
                        );
                        match s_extra_entries(
                            t,
                            reqs,
                            0,
                            0,
                            Seq::<ReqModel>::empty(),
                            ropt,
                            pushed,
                            proj,
                        ) {
                            ExtraOut::Done { list, ropt: ropt1 } => {
                                assert(assoc_get(ropt1, k) is None);
                                let inserted = assoc_insert(ropt1, k, list);
                                assert forall|k2: Seq<char>| true implies #[trigger] assoc_get(
                                    inserted,
                                    k2,
                                ) == if k2 == k {
                                    Some(list)
                                } else {
                                    assoc_get(ropt1, k2)
                                } by {
                                    lemma_assoc_insert_get(ropt1, k, list, k2);
                                }
                                assert forall|nm: Seq<char>|
                                    parents.contains(ItemModel::Extra(nm)) && #[trigger]
                                    assoc_get(ropt, nm) is None implies assoc_get(inserted, nm)
                                    is None by {
                                    assert(pushed.contains(ItemModel::Extra(nm)));
                                    assert(assoc_get(ropt1, nm) is None);
                                    assert(nm != k);
                                }
                            },
                            ExtraOut::Fail { .. } => {},
                        }
                    }
                },
            }
        },
    }
}

/// Walking the rows of a dependency group keeps every cached binding of
/// both caches, and binds no name still on the ancestor stack.
proof fn lemma_group_entries_stable(
    t: Seq<(Seq<char>, Seq<ReqModel>)>,
    g: Seq<(Seq<char>, Seq<crate::SpecifierModel>)>,
    ss: Seq<crate::SpecifierModel>,
    i: int,
    j: int,
    acc: Seq<ReqModel>,
    ropt: Seq<(Seq<char>, Seq<ReqModel>)>,
    rgrp: Seq<(Seq<char>, Seq<ReqModel>)>,
    parents: Seq<ItemModel>,
    proj: Option<Seq<char>>,
)
    requires
        0 <= i <= ss.len(),
        0 <= j,
        includes_in(grp_items(g), ss),
    ensures
        match s_group_entries(t, g, ss, i, j, acc, ropt, rgrp, parents, proj) {
            GroupOut::Done { list, ropt: r1, rgrp: g1 } => preserves_bindings(ropt, r1)
                && stack_unbound_kept(ropt, r1, parents) && preserves_bindings(rgrp, g1)
                && group_stack_unbound_kept(rgrp, g1, parents),
            GroupOut::Fail { err, ropt: r1, rgrp: g1, parents: p1 } => preserves_bindings(
                ropt,
                r1,
            ) && stack_unbound_kept(ropt, r1, parents) && preserves_bindings(rgrp, g1)
                && group_stack_unbound_kept(rgrp, g1, parents),
        },
    decreases count_new(grp_items(g), parents), ss.len() - i, gextras_rem(ss, i, j, proj),
{
    if i >= ss.len() {
    } else {
        match ss[i] {
            crate::SpecifierModel::Requirement(r) => {
                if proj == Some(r.name) {
                    if j >= r.extras.len() {
                        lemma_group_entries_stable(
                            t,
                            g,
                            ss,
                            i + 1,
                            0,
                            acc,
                            ropt,
                            rgrp,
                            parents,
                            proj,
                        );
                    } else {
                        lemma_extra_stable(t, r.extras[j], ropt, parents, proj);
                        match s_extra(t, r.extras[j], ropt, parents, proj) {
                            ExtraOut::Done { list, ropt: ropt2 } => {
                                lemma_group_entries_stable(
                                    t,
                                    g,
                                    ss,
                                    i,
                                    j + 1,
                                    acc + list,
                                    ropt2,
                                    rgrp,
                                    parents,
                                    proj,
                                );
                            },
                            ExtraOut::Fail { .. } => {},
                        }
                    }
                } else {
                    lemma_group_entries_stable(
                        t,
                        g,
                        ss,
                        i + 1,
                        0,
                        acc.push(r),
                        ropt,
                        rgrp,
                        parents,
                        proj,
                    );
                }
            },
            crate::SpecifierModel::Include(nm) => {
                match assoc_get(rgrp, nm) {
                    Option::Some(l) => {
                        lemma_group_entries_stable(
                            t,
                            g,
                            ss,
                            i + 1,
                            0,
                            acc + l,
                            ropt,
                            rgrp,
                            parents,
                            proj,
                        );
                    },
                    Option::None => {
                        match assoc_get(g, nm) {
                            Option::None => {},
                            Option::Some(ss2) => {
                                if parents.contains(ItemModel::Group(nm)) {
                                } else {
                                    lemma_count_new_push(
                                        grp_items(g),
                                        parents,
                                        ItemModel::Group(nm),
                                    );
                                    lemma_assoc_get_includes_in(g, nm);
                                    let pushed = parents.push(ItemModel::Group(nm));
                                    assert forall|x2: Seq<char>|
                                        parents.contains(ItemModel::Group(x2)) implies
                                        pushed.contains(ItemModel::Group(x2)) by {
                                        let x = choose|x: int|
                                            0 <= x < parents.len() && parents[x]
                                                == ItemModel::Group(x2);
                                        assert(pushed[x] == ItemModel::Group(x2));
                                    }
                                    assert forall|x2: Seq<char>|
                                        parents.contains(ItemModel::Extra(x2)) implies
                                        pushed.contains(ItemModel::Extra(x2)) by {
                                        let x = choose|x: int|
                                            0 <= x < parents.len() && parents[x]
                                                == ItemModel::Extra(x2);
                                        assert(pushed[x] == ItemModel::Extra(x2));
                                    }
                                    assert(pushed[parents.len() as int] == ItemModel::Group(nm));
                                    lemma_group_entries_stable(
                                        t,
                                        g,
                                        ss2,
                                        0,
                                        0,
                                        Seq::<ReqModel>::empty(),
                                        ropt,
                                        rgrp,
                                        pushed,
                                        proj,
                                    );
                                    let inner = s_group_entries(
                                        t,
                                        g,
                                        ss2,
                                        0,
                                        0,
                                        Seq::<ReqModel>::empty(),
                                        ropt,
                                        rgrp,
                                        pushed,
                                        proj,
                                    );
                                    match inner {
                                        GroupOut::Done { list: l2, ropt: ropt2, rgrp: rgrp2 } => {
                                            assert(assoc_get(rgrp2, nm) is None);
                                            let inserted = assoc_insert(rgrp2, nm, l2);
                                            assert forall|k2: Seq<char>| true implies #[trigger]
                                                assoc_get(inserted, k2) == if k2 == nm {
                                                Some(l2)
                                            } else {
                                                assoc_get(rgrp2, k2)
                                            } by {
                                                lemma_assoc_insert_get(rgrp2, nm, l2, k2);
                                            }
                                            lemma_group_entries_stable(
                                                t,
                                                g,
                                                ss,
                                                i + 1,
                                                0,
                                                acc + l2,
                                                ropt2,
                                                inserted,
                                                parents,
                                                proj,
                                            );
                                            let rest = s_group_entries(
                                                t,
                                                g,
                                                ss,
                                                i + 1,
                                                0,
                                                acc + l2,
                                                ropt2,
                                                inserted,
                                                parents,
                                                proj,
                                            );
                                            match rest {
                                                GroupOut::Done { ropt: rf, rgrp: gf, .. } => {
                                                    assert forall|k2: Seq<char>| #[trigger]
                                                        assoc_get(rgrp, k2) is Some implies
                                                        assoc_get(gf, k2) == assoc_get(
                                                        rgrp,
                                                        k2,
                                                    ) by {
                                                        assert(assoc_get(rgrp2, k2) == assoc_get(
                                                            rgrp,
                                                            k2,
                                                        ));
                                                        assert(k2 != nm);
                                                        assert(assoc_get(inserted, k2)
                                                            == assoc_get(rgrp2, k2));
                                                    }
                                                    assert forall|x2: Seq<char>|
                                                        parents.contains(ItemModel::Group(x2))
                                                            && #[trigger] assoc_get(rgrp, x2)
                                                            is None implies assoc_get(gf, x2)
                                                        is None by {
                                                        assert(pushed.contains(
                                                            ItemModel::Group(x2),
                                                        ));
                                                        assert(assoc_get(rgrp2, x2) is None);
                                                        assert(x2 != nm);
                                                        assert(assoc_get(inserted, x2)
                                                            == assoc_get(rgrp2, x2));
                                                    }
                                                },
                                                GroupOut::Fail { ropt: rf, rgrp: gf, .. } => {
                                                    assert forall|k2: Seq<char>| #[trigger]
                                                        assoc_get(rgrp, k2) is Some implies
                                                        assoc_get(gf, k2) == assoc_get(
                                                        rgrp,
                                                        k2,
                                                    ) by {
                                                        assert(assoc_get(rgrp2, k2) == assoc_get(
                                                            rgrp,
                                                            k2,
                                                        ));
                                                        assert(k2 != nm);
                                                        assert(assoc_get(inserted, k2)
                                                            == assoc_get(rgrp2, k2));
                                                    }
                                                    assert forall|x2: Seq<char>|
                                                        parents.contains(ItemModel::Group(x2))
                                                            && #[trigger] assoc_get(rgrp, x2)
                                                            is None implies assoc_get(gf, x2)
                                                        is None by {
                                                        assert(pushed.contains(
                                                            ItemModel::Group(x2),
                                                        ));
                                                        assert(assoc_get(rgrp2, x2) is None);
                                                        assert(x2 != nm);
                                                        assert(assoc_get(inserted, x2)
                                                            == assoc_get(rgrp2, x2));
                                                    }
                                                },
                                            }
                                        },
                                        GroupOut::Fail { .. } => {
                                            assert forall|x2: Seq<char>|
                                                parents.contains(ItemModel::Group(x2))
                                                    && #[trigger] assoc_get(rgrp, x2) is None
                                                implies match inner {
                                                    GroupOut::Fail { rgrp: gf, .. } => assoc_get(
                                                        gf,
                                                        x2,
                                                    ) is None,
                                                    GroupOut::Done { .. } => true,
                                                } by {
                                                assert(pushed.contains(ItemModel::Group(x2)));
                                            }
                                        },
                                    }
                                }
                            },
                        }
                    },
                }
            },
        }
    }
}

/// Memoization correctness for dependency groups: a binding already in
/// the group cache is kept, with the same list, by any further
/// resolution, whether it succeeds or fails; a repeated reference is
/// answered from the cache with that same list.
pub proof fn lemma_group_memo_stable(
    t: Seq<(Seq<char>, Seq<ReqModel>)>,
    g: Seq<(Seq<char>, Seq<crate::SpecifierModel>)>,
    name: Seq<char>,
    ropt: Seq<(Seq<char>, Seq<ReqModel>)>,
    rgrp: Seq<(Seq<char>, Seq<ReqModel>)>,
    parents: Seq<ItemModel>,
    proj: Option<Seq<char>>,
    k2: Seq<char>,
)
    requires
        assoc_get(rgrp, k2) is Some,
    ensures
        match s_group(t, g, name, ropt, rgrp, parents, proj) {
            GroupOut::Done { list, ropt: r1, rgrp: g1 } => assoc_get(g1, k2) == assoc_get(
                rgrp,
                k2,
            ),
            GroupOut::Fail { err, ropt: r1, rgrp: g1, parents: p1 } => assoc_get(g1, k2)
                == assoc_get(rgrp, k2),
        },
{
    match assoc_get(rgrp, name) {
        Option::Some(_) => {},
        Option::None => {
            match assoc_get(g, name) {
                Option::None => {},
                Option::Some(ss) => {
                    if !parents.contains(ItemModel::Group(name)) {
                        lemma_assoc_get_includes_in(g, name);
                        let pushed = parents.push(ItemModel::Group(name));
                        assert(pushed[parents.len() as int] == ItemModel::Group(name));
                        lemma_group_entries_stable(
                            t,
                            g,
                            ss,
                            0,
                            0,
                            Seq::<ReqModel>::empty(),
                            ropt,
                            rgrp,
                            pushed,
                            proj,
                        );
                        match s_group_entries(
                            t,
                            g,
                            ss,
                            0,
                            0,
                            Seq::<ReqModel>::empty(),
                            ropt,
                            rgrp,
                            pushed,
                            proj,
                        ) {
                            GroupOut::Done { list, ropt: ropt1, rgrp: rgrp1 } => {
                                assert(assoc_get(rgrp1, name) is None);
                                assert(k2 != name);
                                lemma_assoc_insert_get(rgrp1, name, list, k2);
                            },
                            GroupOut::Fail { .. } => {},
                        }
                    }
                },
            }
        },
    }
}

/// Every key the walk binds was either already bound or names a row of
/// the optional-dependencies table (by normalized match).
pub open spec fn opt_keys_from_table(
    t: Seq<(Seq<char>, Seq<ReqModel>)>,
    r0: Seq<(Seq<char>, Seq<ReqModel>)>,
    r1: Seq<(Seq<char>, Seq<ReqModel>)>,
) -> bool {
    forall|k2: Seq<char>|
        #[trigger] assoc_get(r1, k2) is Some ==> assoc_get(r0, k2) is Some || norm_get(
            t,
            k2,
        ) is Some
}

/// Every key the walk binds was either already bound or is a key of the
/// dependency-groups table.
pub open spec fn grp_keys_from_table(
    g: Seq<(Seq<char>, Seq<crate::SpecifierModel>)>,
    r0: Seq<(Seq<char>, Seq<ReqModel>)>,
    r1: Seq<(Seq<char>, Seq<ReqModel>)>,
) -> bool {
    forall|k2: Seq<char>|
        #[trigger] assoc_get(r1, k2) is Some ==> assoc_get(r0, k2) is Some || assoc_get(
            g,
            k2,
        ) is Some
}

/// Walking the rows of an extra binds only names the table has.
proof fn lemma_entries_keys(
    t: Seq<(Seq<char>, Seq<ReqModel>)>,
    reqs: Seq<ReqModel>,
    i: int,
    j: int,
    acc: Seq<ReqModel>,
    ropt: Seq<(Seq<char>, Seq<ReqModel>)>,
    parents: Seq<ItemModel>,
    proj: Option<Seq<char>>,
)
    requires
        0 <= i <= reqs.len(),
        0 <= j,
        extras_in(opt_items(t), reqs),
    ensures
        match s_extra_entries(t, reqs, i, j, acc, ropt, parents, proj) {
            ExtraOut::Done { list, ropt: r1 } => opt_keys_from_table(t, ropt, r1),
            ExtraOut::Fail { err, ropt: r1, parents: p1 } => opt_keys_from_table(t, ropt, r1),
        },
    decreases count_new(opt_items(t), parents), reqs.len() - i, extras_rem(reqs, i, j, proj),
{
    if i >= reqs.len() {
    } else {
        let r = reqs[i];
        if proj == Some(r.name) {
            if j >= r.extras.len() {
                lemma_entries_keys(t, reqs, i + 1, 0, acc, ropt, parents, proj);
            } else {
                let e = r.extras[j];
                match assoc_get(ropt, e) {
                    Option::Some(l) => {
                        lemma_entries_keys(t, reqs, i, j + 1, acc + l, ropt, parents, proj);
                    },
                    Option::None => {
                        match norm_get(t, e) {
                            Option::None => {},
                            Option::Some(reqs2) => {
                                if parents.contains(ItemModel::Extra(e)) {
                                } else {
                                    lemma_count_new_push(
                                        opt_items(t),
                                        parents,
                                        ItemModel::Extra(e),
                                    );
                                    lemma_norm_get_extras_in(t, e);
                                    let pushed = parents.push(ItemModel::Extra(e));
                                    lemma_entries_keys(
                                        t,
                                        reqs2,
                                        0,
                                        0,
                                        Seq::<ReqModel>::empty(),
                                        ropt,
                                        pushed,
                                        proj,
                                    );
                                    match s_extra_entries(
                                        t,
                                        reqs2,
                                        0,
                                        0,
                                        Seq::<ReqModel>::empty(),
                                        ropt,
                                        pushed,
                                        proj,
                                    ) {
                                        ExtraOut::Done { list: l2, ropt: ropt2 } => {
                                            let inserted = assoc_insert(ropt2, e, l2);
                                            assert forall|k2: Seq<char>| #[trigger] assoc_get(
                                                inserted,
                                                k2,
                                            ) is Some implies assoc_get(ropt, k2) is Some
                                                || norm_get(t, k2) is Some by {
                                                lemma_assoc_insert_get(ropt2, e, l2, k2);
                                            }
                                            lemma_entries_keys(
                                                t,
                                                reqs,
                                                i,
                                                j + 1,
                                                acc + l2,
                                                inserted,
                                                parents,
                                                proj,
                                            );
                                            match s_extra_entries(
                                                t,
                                                reqs,
                                                i,
                                                j + 1,
                                                acc + l2,
                                                inserted,
                                                parents,
                                                proj,
                                            ) {
                                                ExtraOut::Done { ropt: rf, .. } => {
                                                    assert forall|k2: Seq<char>| #[trigger]
                                                        assoc_get(rf, k2) is Some implies
                                                        assoc_get(ropt, k2) is Some || norm_get(
                                                        t,
                                                        k2,
                                                    ) is Some by {
                                                        assert(assoc_get(inserted, k2) is Some
                                                            || norm_get(t, k2) is Some);
                                                    }
                                                },
                                                ExtraOut::Fail { ropt: rf, .. } => {
                                                    assert forall|k2: Seq<char>| #[trigger]
                                                        assoc_get(rf, k2) is Some implies
                                                        assoc_get(ropt, k2) is Some || norm_get(
                                                        t,
                                                        k2,
                                                    ) is Some by {
                                                        assert(assoc_get(inserted, k2) is Some
                                                            || norm_get(t, k2) is Some);
                                                    }
                                                },
                                            }
                                        },
                                        ExtraOut::Fail { .. } => {},
                                    }
                                }
                            },
                        }
                    },
                }
            }
        } else {
            lemma_entries_keys(t, reqs, i + 1, 0, acc.push(r), ropt, parents, proj);
        }
    }
}

/// Resolving one extra binds only names the optional-dependencies table
/// has, besides what was bound before: the first resolved-map invariant.
pub proof fn lemma_extra_keys_from_table(
    t: Seq<(Seq<char>, Seq<ReqModel>)>,
    k: Seq<char>,
    ropt: Seq<(Seq<char>, Seq<ReqModel>)>,
    parents: Seq<ItemModel>,
    proj: Option<Seq<char>>,
)
    ensures
        match s_extra(t, k, ropt, parents, proj) {
            ExtraOut::Done { list, ropt: r1 } => opt_keys_from_table(t, ropt, r1),
            ExtraOut::Fail { err, ropt: r1, parents: p1 } => opt_keys_from_table(t, ropt, r1),
        },
{
    match assoc_get(ropt, k) {
        Option::Some(_) => {},
        Option::None => {
            match norm_get(t, k) {
                Option::None => {},
                Option::Some(reqs) => {
                    if !parents.contains(ItemModel::Extra(k)) {
                        lemma_norm_get_extras_in(t, k);
                        let pushed = parents.push(ItemModel::Extra(k));
                        lemma_entries_keys(
                            t,
                            reqs,
                            0,
                            0,
                            Seq::<ReqModel>::empty(),
                            ropt,
                            pushed,
                            proj,
                        );
                        match s_extra_entries(
                            t,
                            reqs,
                            0,
                            0,
                            Seq::<ReqModel>::empty(),
                            ropt,
                            pushed,
                            proj,
                        ) {
                            ExtraOut::Done { list, ropt: ropt1 } => {
                                assert forall|k2: Seq<char>| #[trigger] assoc_get(
                                    assoc_insert(ropt1, k, list),
                                    k2,
                                ) is Some implies assoc_get(ropt, k2) is Some || norm_get(
                                    t,
                                    k2,
                                ) is Some by {
                                    lemma_assoc_insert_get(ropt1, k, list, k2);
                                }
                            },
                            ExtraOut::Fail { .. } => {},
                        }
                    }
                },
            }
        },
    }
}

/// Walking the rows of a dependency group binds only names the tables
/// have.
proof fn lemma_group_entries_keys(
    t: Seq<(Seq<char>, Seq<ReqModel>)>,
    g: Seq<(Seq<char>, Seq<crate::SpecifierModel>)>,
    ss: Seq<crate::SpecifierModel>,
    i: int,
    j: int,
    acc: Seq<ReqModel>,
    ropt: Seq<(Seq<char>, Seq<ReqModel>)>,
    rgrp: Seq<(Seq<char>, Seq<ReqModel>)>,
    parents: Seq<ItemModel>,
    proj: Option<Seq<char>>,
)
    requires
        0 <= i <= ss.len(),
        0 <= j,
        includes_in(grp_items(g), ss),
    ensures
        match s_group_entries(t, g, ss, i, j, acc, ropt, rgrp, parents, proj) {
            GroupOut::Done { list, ropt: r1, rgrp: g1 } => opt_keys_from_table(t, ropt, r1)
                && grp_keys_from_table(g, rgrp, g1),
            GroupOut::Fail { err, ropt: r1, rgrp: g1, parents: p1 } => opt_keys_from_table(
                t,
                ropt,
                r1,
            ) && grp_keys_from_table(g, rgrp, g1),
        },
    decreases count_new(grp_items(g), parents), ss.len() - i, gextras_rem(ss, i, j, proj),
{
    if i >= ss.len() {
    } else {
        match ss[i] {
            crate::SpecifierModel::Requirement(r) => {
                if proj == Some(r.name) {
                    if j >= r.extras.len() {
                        lemma_group_entries_keys(t, g, ss, i + 1, 0, acc, ropt, rgrp, parents, proj);
                    } else {
                        lemma_extra_keys_from_table(t, r.extras[j], ropt, parents, proj);
                        match s_extra(t, r.extras[j], ropt, parents, proj) {
                            ExtraOut::Done { list, ropt: ropt2 } => {
                                lemma_group_entries_keys(
                                    t,
                                    g,
                                    ss,
                                    i,
                                    j + 1,
                                    acc + list,
                                    ropt2,
                                    rgrp,
                                    parents,
                                    proj,
                                );
                                match s_group_entries(
                                    t,
                                    g,
                                    ss,
                                    i,
                                    j + 1,
                                    acc + list,
                                    ropt2,
                                    rgrp,
                                    parents,
                                    proj,
                                ) {
                                    GroupOut::Done { ropt: rf, .. } => {
                                        assert forall|k2: Seq<char>| #[trigger] assoc_get(
                                            rf,
                                            k2,
                                        ) is Some implies assoc_get(ropt, k2) is Some
                                            || norm_get(t, k2) is Some by {
                                            assert(assoc_get(ropt2, k2) is Some || norm_get(
                                                t,
                                                k2,
                                            ) is Some);
                                        }
                                    },
                                    GroupOut::Fail { ropt: rf, .. } => {
                                        assert forall|k2: Seq<char>| #[trigger] assoc_get(
                                            rf,
                                            k2,
                                        ) is Some implies assoc_get(ropt, k2) is Some
                                            || norm_get(t, k2) is Some by {
                                            assert(assoc_get(ropt2, k2) is Some || norm_get(
                                                t,
                                                k2,
                                            ) is Some);
                                        }
                                    },
                                }
                            },
                            ExtraOut::Fail { .. } => {},
                        }
                    }
                } else {
                    lemma_group_entries_keys(
                        t,
                        g,
                        ss,
                        i + 1,
                        0,
                        acc.push(r),
                        ropt,
                        rgrp,
                        parents,
                        proj,
                    );
                }
            },
            crate::SpecifierModel::Include(nm) => {
                match assoc_get(rgrp, nm) {
                    Option::Some(l) => {
                        lemma_group_entries_keys(
                            t,
                            g,
                            ss,
                            i + 1,
                            0,
                            acc + l,
                            ropt,
                            rgrp,
                            parents,
                            proj,
                        );
                    },
                    Option::None => {
                        match assoc_get(g, nm) {
                            Option::None => {},
                            Option::Some(ss2) => {
                                if parents.contains(ItemModel::Group(nm)) {
                                } else {
                                    lemma_count_new_push(
                                        grp_items(g),
                                        parents,
                                        ItemModel::Group(nm),
                                    );
                                    lemma_assoc_get_includes_in(g, nm);
                                    let pushed = parents.push(ItemModel::Group(nm));
                                    lemma_group_entries_keys(
                                        t,
                                        g,
                                        ss2,
                                        0,
                                        0,
                                        Seq::<ReqModel>::empty(),
                                        ropt,
                                        rgrp,
                                        pushed,
                                        proj,
                                    );
                                    match s_group_entries(
                                        t,
                                        g,
                                        ss2,
                                        0,
                                        0,
                                        Seq::<ReqModel>::empty(),
                                        ropt,
                                        rgrp,
                                        pushed,
                                        proj,
                                    ) {
                                        GroupOut::Done { list: l2, ropt: ropt2, rgrp: rgrp2 } => {
                                            let inserted = assoc_insert(rgrp2, nm, l2);
                                            assert forall|k2: Seq<char>| #[trigger] assoc_get(
                                                inserted,
                                                k2,
                                            ) is Some implies assoc_get(rgrp, k2) is Some
                                                || assoc_get(g, k2) is Some by {
                                                lemma_assoc_insert_get(rgrp2, nm, l2, k2);
                                            }
                                            lemma_group_entries_keys(
                                                t,
                                                g,
                                                ss,
                                                i + 1,
                                                0,
                                                acc + l2,
                                                ropt2,
                                                inserted,
                                                parents,
                                                proj,
                                            );
                                            match s_group_entries(
                                                t,
                                                g,
                                                ss,
                                                i + 1,
                                                0,
                                                acc + l2,
                                                ropt2,
                                                inserted,
                                                parents,
                                                proj,
                                            ) {
                                                GroupOut::Done { ropt: rf, rgrp: gf, .. } => {
                                                    assert forall|k2: Seq<char>| #[trigger]
                                                        assoc_get(rf, k2) is Some implies
                                                        assoc_get(ropt, k2) is Some || norm_get(
                                                        t,
                                                        k2,
                                                    ) is Some by {
                                                        assert(assoc_get(ropt2, k2) is Some
                                                            || norm_get(t, k2) is Some);
                                                    }
                                                    assert forall|k2: Seq<char>| #[trigger]
                                                        assoc_get(gf, k2) is Some implies
                                                        assoc_get(rgrp, k2) is Some
                                                        || assoc_get(g, k2) is Some by {
                                                        assert(assoc_get(inserted, k2) is Some
                                                            || assoc_get(g, k2) is Some);
                                                    }
                                                },
                                                GroupOut::Fail { ropt: rf, rgrp: gf, .. } => {
                                                    assert forall|k2: Seq<char>| #[trigger]
                                                        assoc_get(rf, k2) is Some implies
                                                        assoc_get(ropt, k2) is Some || norm_get(
                                                        t,
                                                        k2,
                                                    ) is Some by {
                                                        assert(assoc_get(ropt2, k2) is Some
                                                            || norm_get(t, k2) is Some);
                                                    }
                                                    assert forall|k2: Seq<char>| #[trigger]
                                                        assoc_get(gf, k2) is Some implies
                                                        assoc_get(rgrp, k2) is Some
                                                        || assoc_get(g, k2) is Some by {
                                                        assert(assoc_get(inserted, k2) is Some
                                                            || assoc_get(g, k2) is Some);
                                                    }
                                                },
                                            }
                                        },
                                        GroupOut::Fail { .. } => {},
                                    }
                                }
                            },
                        }
                    },
                }
            },
        }
    }
}

/// Resolving one dependency group binds only names the tables have,
/// besides what was bound before: the resolved-map invariant for both
/// caches.
pub proof fn lemma_group_keys_from_table(
    t: Seq<(Seq<char>, Seq<ReqModel>)>,
    g: Seq<(Seq<char>, Seq<crate::SpecifierModel>)>,
    name: Seq<char>,
    ropt: Seq<(Seq<char>, Seq<ReqModel>)>,
    rgrp: Seq<(Seq<char>, Seq<ReqModel>)>,
    parents: Seq<ItemModel>,
    proj: Option<Seq<char>>,
)
    ensures
        match s_group(t, g, name, ropt, rgrp, parents, proj) {
            GroupOut::Done { list, ropt: r1, rgrp: g1 } => opt_keys_from_table(t, ropt, r1)
                && grp_keys_from_table(g, rgrp, g1),
            GroupOut::Fail { err, ropt: r1, rgrp: g1, parents: p1 } => opt_keys_from_table(
                t,
                ropt,
                r1,
            ) && grp_keys_from_table(g, rgrp, g1),
        },
{
    match assoc_get(rgrp, name) {
        Option::Some(_) => {},
        Option::None => {
            match assoc_get(g, name) {
                Option::None => {},
                Option::Some(ss) => {
                    if !parents.contains(ItemModel::Group(name)) {
                        lemma_assoc_get_includes_in(g, name);
                        let pushed = parents.push(ItemModel::Group(name));
                        lemma_group_entries_keys(
                            t,
                            g,
                            ss,
                            0,
                            0,
                            Seq::<ReqModel>::empty(),
                            ropt,
                            rgrp,
                            pushed,
                            proj,
                        );
                        match s_group_entries(
                            t,
                            g,
                            ss,
                            0,
                            0,
                            Seq::<ReqModel>::empty(),
                            ropt,
                            rgrp,
                            pushed,
                            proj,
                        ) {
                            GroupOut::Done { list, ropt: ropt1, rgrp: rgrp1 } => {
                                assert forall|k2: Seq<char>| #[trigger] assoc_get(
                                    assoc_insert(rgrp1, name, list),
                                    k2,
                                ) is Some implies assoc_get(rgrp, k2) is Some || assoc_get(
                                    g,
                                    k2,
                                ) is Some by {
                                    lemma_assoc_insert_get(rgrp1, name, list, k2);
                                }
                            },
                            GroupOut::Fail { .. } => {},
                        }
                    }
                },
            }
        },
    }
}

} // verus!
