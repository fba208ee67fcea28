//! Reference resolution: the deduplicated transitive closure of named
//! definitions reachable from a root type description.
//!
//! [`resolve_info`] walks an expression tree depth first. On a reference to a
//! definition it tests the definition's handle against the set of handles
//! already seen; a newly seen definition is recorded and its body walked in
//! turn, an already seen one is not entered again. The visited set is what
//! makes the walk terminate on cyclic and mutually recursive graphs.
//!
//! The order of the result is first-discovery preorder, pinned exactly by the
//! specification functions [`dfs_expr`], [`dfs_info`], [`dfs_exprs`] and
//! [`dfs_fields`]; it is therefore stable across runs for the same input.
//! [`lemma_closure_exact`] proves that the result holds each definition
//! reachable from the root exactly once: no duplicates, and the set of
//! discovered handles equals [`reachable_info`], the closure defined
//! independently through paths of references.

use crate::type_expr::{
    wf_expr, wf_exprs, wf_fields, wf_info, ObjectField, TypeExpr, TypeInfo, TypeRegistry,
};
use vstd::prelude::*;
use vstd::seq_lib::lemma_no_dup_in_concat;
use vstd::seq_lib::seq_to_set_distributes_over_add;
use vstd::set_lib::lemma_len_subset;

verus! {

broadcast use {vstd::set::group_set_axioms, vstd::seq_lib::seq_to_set_is_finite};

/// The handles the expression itself mentions: targets of its references to
/// defined entries, looking through every child expression, including the
/// expressions behind native references and the generic arguments of direct
/// names.
pub open spec fn expr_refs(e: TypeExpr) -> Set<usize>
    decreases e,
{
    match e {
        TypeExpr::Ref(info) => info_refs(info),
        TypeExpr::TypeName(tn) => exprs_refs(tn.generic_args@),
        TypeExpr::String(_) => Set::empty(),
        TypeExpr::Tuple(t) => exprs_refs(t.elements@),
        TypeExpr::Object(o) => fields_refs(o.fields@),
        TypeExpr::Array(a) => expr_refs(*a.item),
        TypeExpr::Union(u) => exprs_refs(u.members@),
        TypeExpr::Intersection(i) => exprs_refs(i.members@),
    }
}

/// The handles a reference node mentions; see [`expr_refs`].
pub open spec fn info_refs(info: TypeInfo) -> Set<usize>
    decreases info,
{
    match info {
        TypeInfo::Native(n) => expr_refs(*n.expr),
        TypeInfo::Custom(c) => exprs_refs(c.generic_args@).insert(c.def),
    }
}

/// The handles any expression of the sequence mentions.
pub open spec fn exprs_refs(es: Seq<TypeExpr>) -> Set<usize>
    decreases es,
{
    if es.len() == 0 {
        Set::empty()
    } else {
        proof {
            assert(es.drop_first() == es.subrange(1, es.len() as int));
        }
        expr_refs(es.first()).union(exprs_refs(es.drop_first()))
    }
}

/// The handles any field's type expression mentions.
pub open spec fn fields_refs(fs: Seq<ObjectField>) -> Set<usize>
    decreases fs,
{
    if fs.len() == 0 {
        Set::empty()
    } else {
        proof {
            assert(fs.drop_first() == fs.subrange(1, fs.len() as int));
        }
        expr_refs(fs.first().ty).union(fields_refs(fs.drop_first()))
    }
}

/// Definition `i` references definition `j` directly from its body.
pub open spec fn edge(reg: TypeRegistry, i: usize, j: usize) -> bool {
    i < reg.defs@.len() && expr_refs(reg.defs@[i as int].def).contains(j)
}

/// `p` is a chain of references that starts at a handle of `seed` and steps
/// from each definition to one its body mentions.
pub open spec fn is_ref_path(reg: TypeRegistry, seed: Set<usize>, p: Seq<usize>) -> bool {
    &&& p.len() > 0
    &&& seed.contains(p[0])
    &&& forall|k: int| 0 <= k < p.len() - 1 ==> edge(reg, #[trigger] p[k], p[k + 1])
}

/// The transitive closure: every handle at the end of some reference chain
/// out of `seed`.
pub open spec fn reachable_from(reg: TypeRegistry, seed: Set<usize>) -> Set<usize> {
    Set::new(
        |j: usize| exists|p: Seq<usize>| #[trigger] is_ref_path(reg, seed, p) && p.last() == j,
    )
}

/// The set of definitions transitively reachable from a root description.
pub open spec fn reachable_info(reg: TypeRegistry, info: TypeInfo) -> Set<usize> {
    reachable_from(reg, info_refs(info))
}

/// The valid handles of the registry, as a set.
pub open spec fn below(n: nat) -> Set<usize> {
    Set::new(|i: usize| (i as nat) < n)
}

/// How much of the registry a walk with visited set `v` may still discover.
/// Only valid handles count, so the measure never goes below zero.
pub open spec fn dfs_measure(reg: TypeRegistry, v: Set<usize>) -> int {
    reg.defs@.len() - v.intersect(below(reg.defs@.len() as nat)).len()
}

pub proof fn lemma_below_card(n: nat)
    ensures
        below(n).finite(),
        below(n).len() <= n,
    decreases n,
{
    broadcast use vstd::set::group_set_axioms;

    if n == 0 {
        assert(below(0) =~= Set::empty());
    } else if n <= usize::MAX as nat + 1 {
        lemma_below_card((n - 1) as nat);
        assert(below(n) =~= below((n - 1) as nat).insert((n - 1) as usize));
    } else {
        lemma_below_card(usize::MAX as nat + 1);
        assert(below(n) =~= below(usize::MAX as nat + 1));
    }
}

pub proof fn lemma_measure_bounds(reg: TypeRegistry, v: Set<usize>)
    ensures
        0 <= dfs_measure(reg, v) <= reg.defs@.len(),
{
    broadcast use vstd::set::group_set_axioms;

    let n = reg.defs@.len() as nat;
    lemma_below_card(n);
    lemma_len_subset(v.intersect(below(n)), below(n));
}

pub proof fn lemma_measure_superset(reg: TypeRegistry, v: Set<usize>, w: Set<usize>)
    requires
        v.subset_of(w),
    ensures
        dfs_measure(reg, w) <= dfs_measure(reg, v),
{
    broadcast use vstd::set::group_set_axioms;

    let n = reg.defs@.len() as nat;
    lemma_below_card(n);
    lemma_len_subset(v.intersect(below(n)), w.intersect(below(n)));
}

pub proof fn lemma_measure_insert(reg: TypeRegistry, v: Set<usize>, x: usize)
    requires
        x < reg.defs@.len(),
        !v.contains(x),
    ensures
        0 <= dfs_measure(reg, v.insert(x)) < dfs_measure(reg, v),
{
    broadcast use vstd::set::group_set_axioms;

    let n = reg.defs@.len() as nat;
    lemma_below_card(n);
    lemma_measure_bounds(reg, v.insert(x));
    assert(v.insert(x).intersect(below(n)) =~= v.intersect(below(n)).insert(x));
    lemma_len_subset(v.intersect(below(n)), below(n));
}

/// The first-discovery preorder walk of one expression: the handles of the
/// definitions newly discovered, in discovery order, given that the handles
/// of `v` have been discovered already.
pub open spec fn dfs_expr(reg: TypeRegistry, e: TypeExpr, v: Set<usize>) -> Seq<usize>
    decreases dfs_measure(reg, v), e,
        when reg.wf() && wf_expr(reg, e)
{
    match e {
        TypeExpr::Ref(info) => dfs_info(reg, info, v),
        TypeExpr::TypeName(tn) => dfs_exprs(reg, tn.generic_args@, v),
        TypeExpr::String(_) => Seq::empty(),
        TypeExpr::Tuple(t) => dfs_exprs(reg, t.elements@, v),
        TypeExpr::Object(o) => dfs_fields(reg, o.fields@, v),
        TypeExpr::Array(a) => dfs_expr(reg, *a.item, v),
        TypeExpr::Union(u) => dfs_exprs(reg, u.members@, v),
        TypeExpr::Intersection(i) => dfs_exprs(reg, i.members@, v),
    }
}

/// The walk of a reference node. A native reference is walked structurally;
/// a newly seen defined reference is recorded, then its body is walked, then
/// its generic arguments; an already seen one contributes its generic
/// arguments only.
pub open spec fn dfs_info(reg: TypeRegistry, info: TypeInfo, v: Set<usize>) -> Seq<usize>
    decreases dfs_measure(reg, v), info,
        when reg.wf() && wf_info(reg, info)
{
    match info {
        TypeInfo::Native(n) => dfs_expr(reg, *n.expr, v),
        TypeInfo::Custom(c) => {
            if v.contains(c.def) {
                dfs_exprs(reg, c.generic_args@, v)
            } else {
                proof {
                    lemma_measure_insert(reg, v, c.def);
                }
                let d = seq![c.def] + dfs_expr(
                    reg,
                    reg.defs@[c.def as int].def,
                    v.insert(c.def),
                );
                proof {
                    assert(d.to_set().contains(c.def)) by {
                        assert(d[0] == c.def);
                    }
                    assert(v.insert(c.def).subset_of(v.union(d.to_set())));
                    lemma_measure_superset(reg, v.insert(c.def), v.union(d.to_set()));
                    lemma_measure_bounds(reg, v.union(d.to_set()));
                }
                d + dfs_exprs(reg, c.generic_args@, v.union(d.to_set()))
            }
        },
    }
}

/// The walk of a sequence of expressions, threading the visited set left to
/// right.
pub open spec fn dfs_exprs(reg: TypeRegistry, es: Seq<TypeExpr>, v: Set<usize>) -> Seq<usize>
    decreases dfs_measure(reg, v), es,
        when reg.wf() && wf_exprs(reg, es)
{
    if es.len() == 0 {
        Seq::empty()
    } else {
        let d = dfs_expr(reg, es.first(), v);
        proof {
            assert(v.subset_of(v.union(d.to_set())));
            lemma_measure_superset(reg, v, v.union(d.to_set()));
            lemma_measure_bounds(reg, v.union(d.to_set()));
            assert(es.drop_first() == es.subrange(1, es.len() as int));
        }
        d + dfs_exprs(reg, es.drop_first(), v.union(d.to_set()))
    }
}

/// The walk of a sequence of object fields, threading the visited set left
/// to right.
pub open spec fn dfs_fields(reg: TypeRegistry, fs: Seq<ObjectField>, v: Set<usize>) -> Seq<usize>
    decreases dfs_measure(reg, v), fs,
        when reg.wf() && wf_fields(reg, fs)
{
    if fs.len() == 0 {
        Seq::empty()
    } else {
        let d = dfs_expr(reg, fs.first().ty, v);
        proof {
            assert(v.subset_of(v.union(d.to_set())));
            lemma_measure_superset(reg, v, v.union(d.to_set()));
            lemma_measure_bounds(reg, v.union(d.to_set()));
            assert(fs.drop_first() == fs.subrange(1, fs.len() as int));
        }
        d + dfs_fields(reg, fs.drop_first(), v.union(d.to_set()))
    }
}

/// A visited set fit for the walk: finitely many handles, all valid.
pub open spec fn ok_visited(reg: TypeRegistry, v: Set<usize>) -> bool {
    &&& v.finite()
    &&& forall|i: usize| #[trigger] v.contains(i) ==> i < reg.defs@.len()
}

/// What one step of the walk guarantees, for a node whose direct references
/// are `seed` and whose walk with visited set `v` discovered `d`: the
/// discoveries are valid fresh handles without duplicates, every direct
/// reference of the node and of each discovered definition's body is
/// accounted for afterwards, and nothing unreachable is discovered.
pub open spec fn dfs_post(reg: TypeRegistry, v: Set<usize>, seed: Set<usize>, d: Seq<usize>) -> bool {
    &&& d.no_duplicates()
    &&& forall|k: int|
        0 <= k < d.len() ==> (#[trigger] d[k]) < reg.defs@.len() && !v.contains(d[k])
    &&& seed.subset_of(v.union(d.to_set()))
    &&& forall|j: usize| #[trigger]
        d.to_set().contains(j) ==> expr_refs(reg.defs@[j as int].def).subset_of(
            v.union(d.to_set()),
        )
    &&& d.to_set().subset_of(reachable_from(reg, seed))
}

proof fn lemma_reach_mono(reg: TypeRegistry, s1: Set<usize>, s2: Set<usize>)
    requires
        s1.subset_of(s2),
    ensures
        reachable_from(reg, s1).subset_of(reachable_from(reg, s2)),
{
    assert forall|j: usize| reachable_from(reg, s1).contains(j) implies reachable_from(
        reg,
        s2,
    ).contains(j) by {
        let p = choose|p: Seq<usize>| #[trigger] is_ref_path(reg, s1, p) && p.last() == j;
        assert(is_ref_path(reg, s2, p));
    }
}

proof fn lemma_reach_seed(reg: TypeRegistry, seed: Set<usize>, i: usize)
    requires
        seed.contains(i),
    ensures
        reachable_from(reg, seed).contains(i),
{
    let p = seq![i];
    assert(p.last() == i);
    assert(is_ref_path(reg, seed, p));
}

proof fn lemma_reach_prepend(reg: TypeRegistry, seed: Set<usize>, i: usize)
    requires
        seed.contains(i),
        i < reg.defs@.len(),
    ensures
        reachable_from(reg, expr_refs(reg.defs@[i as int].def)).subset_of(
            reachable_from(reg, seed),
        ),
{
    let body_refs = expr_refs(reg.defs@[i as int].def);
    assert forall|j: usize| reachable_from(reg, body_refs).contains(j) implies reachable_from(
        reg,
        seed,
    ).contains(j) by {
        let p = choose|p: Seq<usize>| #[trigger] is_ref_path(reg, body_refs, p) && p.last() == j;
        let q = seq![i] + p;
        assert(q[0] == i);
        assert(edge(reg, i, p[0]));
        assert forall|k: int| 0 <= k < q.len() - 1 implies edge(reg, #[trigger] q[k], q[k + 1]) by {
            if k > 0 {
                assert(q[k] == p[k - 1]);
                assert(q[k + 1] == p[k]);
            }
        }
        assert(is_ref_path(reg, seed, q));
        assert(q.last() == j);
    }
}

proof fn lemma_path_in_closed(reg: TypeRegistry, seed: Set<usize>, d: Set<usize>, p: Seq<usize>)
    requires
        is_ref_path(reg, seed, p),
        seed.subset_of(d),
        forall|j: usize| #[trigger]
            d.contains(j) ==> expr_refs(reg.defs@[j as int].def).subset_of(d),
    ensures
        d.contains(p.last()),
    decreases p.len(),
{
    if p.len() == 1 {
        assert(p.last() == p[0]);
    } else {
        let q = p.drop_last();
        assert forall|k: int| 0 <= k < q.len() - 1 implies edge(reg, #[trigger] q[k], q[k + 1]) by {
            assert(q[k] == p[k]);
            assert(q[k + 1] == p[k + 1]);
        }
        assert(is_ref_path(reg, seed, q));
        lemma_path_in_closed(reg, seed, d, q);
        assert(q.last() == p[p.len() - 2]);
        assert(edge(reg, p[p.len() - 2], p[p.len() - 1]));
    }
}

proof fn lemma_dfs_expr_props(reg: TypeRegistry, e: TypeExpr, v: Set<usize>)
    requires
        reg.wf(),
        wf_expr(reg, e),
        ok_visited(reg, v),
    ensures
        dfs_post(reg, v, expr_refs(e), dfs_expr(reg, e, v)),
    decreases dfs_measure(reg, v), e,
{
    match e {
        TypeExpr::Ref(info) => {
            lemma_dfs_info_props(reg, info, v);
        },
        TypeExpr::TypeName(tn) => {
            lemma_dfs_exprs_props(reg, tn.generic_args@, v);
        },
        TypeExpr::String(_) => {
            let d = dfs_expr(reg, e, v);
            assert(d.to_set() =~= Set::<usize>::empty());
            assert(expr_refs(e) =~= Set::<usize>::empty());
        },
        TypeExpr::Tuple(t) => {
            lemma_dfs_exprs_props(reg, t.elements@, v);
        },
        TypeExpr::Object(o) => {
            lemma_dfs_fields_props(reg, o.fields@, v);
        },
        TypeExpr::Array(a) => {
            lemma_dfs_expr_props(reg, *a.item, v);
        },
        TypeExpr::Union(u) => {
            lemma_dfs_exprs_props(reg, u.members@, v);
        },
        TypeExpr::Intersection(i) => {
            lemma_dfs_exprs_props(reg, i.members@, v);
        },
    }
}

proof fn lemma_dfs_info_props(reg: TypeRegistry, info: TypeInfo, v: Set<usize>)
    requires
        reg.wf(),
        wf_info(reg, info),
        ok_visited(reg, v),
    ensures
        dfs_post(reg, v, info_refs(info), dfs_info(reg, info, v)),
    decreases dfs_measure(reg, v), info,
{
    match info {
        TypeInfo::Native(n) => {
            lemma_dfs_expr_props(reg, *n.expr, v);
        },
        TypeInfo::Custom(c) => {
            let args = c.generic_args@;
            let arg_refs = exprs_refs(args);
            let seed = info_refs(info);
            assert(seed == arg_refs.insert(c.def));
            if v.contains(c.def) {
                lemma_dfs_exprs_props(reg, args, v);
                let d = dfs_exprs(reg, args, v);
                assert(seed.subset_of(v.union(d.to_set())));
                lemma_reach_mono(reg, arg_refs, seed);
            } else {
                let body = reg.defs@[c.def as int].def;
                let v1 = v.insert(c.def);
                lemma_measure_insert(reg, v, c.def);
                lemma_dfs_expr_props(reg, body, v1);
                let db = dfs_expr(reg, body, v1);
                let dm = seq![c.def] + db;
                let v2 = v.union(dm.to_set());
                seq_to_set_distributes_over_add(seq![c.def], db);
                assert(seq![c.def].to_set() =~= Set::<usize>::empty().insert(c.def)) by {
                    assert(seq![c.def][0] == c.def);
                }
                assert(v2 =~= v1.union(db.to_set()));
                assert(ok_visited(reg, v2));
                lemma_measure_superset(reg, v1, v2);
                lemma_measure_bounds(reg, v2);
                lemma_dfs_exprs_props(reg, args, v2);
                let da = dfs_exprs(reg, args, v2);
                let d = dm + da;
                assert(dfs_info(reg, info, v) == d);
                seq_to_set_distributes_over_add(dm, da);
                assert(v.union(d.to_set()) =~= v2.union(da.to_set()));

                // no duplicates
                assert(dm.no_duplicates()) by {
                    assert(forall|k: int|
                        0 <= k < db.len() ==> #[trigger] db[k] != c.def && db[k] == dm[k + 1]);
                }
                lemma_no_dup_in_concat(dm, da);

                // freshness and validity
                assert forall|k: int|
                    0 <= k < d.len() implies (#[trigger] d[k]) < reg.defs@.len() && !v.contains(
                    d[k],
                ) by {
                    if k == 0 {
                        assert(d[0] == c.def);
                    } else if k < dm.len() {
                        assert(d[k] == db[k - 1]);
                    } else {
                        assert(d[k] == da[k - dm.len()]);
                    }
                }

                // seed coverage
                assert(d.to_set().contains(c.def)) by {
                    assert(d[0] == c.def);
                }
                assert(seed.subset_of(v.union(d.to_set()))) by {
                    assert(arg_refs.subset_of(v2.union(da.to_set())));
                }

                // closedness of the discovered set
                assert forall|j: usize| #[trigger]
                    d.to_set().contains(j) implies expr_refs(
                    reg.defs@[j as int].def,
                ).subset_of(v.union(d.to_set())) by {
                    if j == c.def {
                        assert(expr_refs(body).subset_of(v1.union(db.to_set())));
                        assert(v1.union(db.to_set()) =~= v2);
                    } else if db.to_set().contains(j) {
                        assert(expr_refs(reg.defs@[j as int].def).subset_of(
                            v1.union(db.to_set()),
                        ));
                        assert(v1.union(db.to_set()) =~= v2);
                    } else {
                        assert(da.to_set().contains(j)) by {
                            let k = choose|k: int| 0 <= k < d.len() && d[k] == j;
                            assert(k >= dm.len()) by {
                                if k < dm.len() {
                                    if k == 0 {
                                        assert(d[0] == c.def);
                                    } else {
                                        assert(d[k] == db[k - 1]);
                                        assert(db.to_set().contains(db[k - 1]));
                                    }
                                }
                            }
                            assert(da[k - dm.len()] == j);
                        }
                    }
                }

                // soundness: everything discovered is reachable from the seed
                lemma_reach_seed(reg, seed, c.def);
                lemma_reach_prepend(reg, seed, c.def);
                lemma_reach_mono(reg, arg_refs, seed);
                assert forall|j: usize| #[trigger]
                    d.to_set().contains(j) implies reachable_from(reg, seed).contains(j) by {
                    if j == c.def {
                    } else if db.to_set().contains(j) {
                        assert(reachable_from(reg, expr_refs(body)).contains(j));
                    } else {
                        assert(da.to_set().contains(j)) by {
                            let k = choose|k: int| 0 <= k < d.len() && d[k] == j;
                            assert(k >= dm.len()) by {
                                if 0 < k < dm.len() {
                                    assert(d[k] == db[k - 1]);
                                    assert(db.to_set().contains(db[k - 1]));
                                }
                            }
                            assert(da[k - dm.len()] == j);
                        }
                        assert(reachable_from(reg, arg_refs).contains(j));
                    }
                }
            }
        },
    }
}

proof fn lemma_dfs_exprs_props(reg: TypeRegistry, es: Seq<TypeExpr>, v: Set<usize>)
    requires
        reg.wf(),
        wf_exprs(reg, es),
        ok_visited(reg, v),
    ensures
        dfs_post(reg, v, exprs_refs(es), dfs_exprs(reg, es, v)),
    decreases dfs_measure(reg, v), es,
{
    if es.len() == 0 {
        let d = dfs_exprs(reg, es, v);
        assert(d.to_set() =~= Set::<usize>::empty());
        assert(exprs_refs(es) =~= Set::<usize>::empty());
    } else {
        let e0 = es.first();
        let rest = es.drop_first();
        assert(e0 == es[0]);
        assert(wf_expr(reg, e0));
        lemma_dfs_expr_props(reg, e0, v);
        let d0 = dfs_expr(reg, e0, v);
        let v1 = v.union(d0.to_set());
        assert(ok_visited(reg, v1));
        assert(forall|i: int| 0 <= i < rest.len() ==> rest[i] == es[i + 1]);
        assert(wf_exprs(reg, rest));
        lemma_measure_superset(reg, v, v1);
        lemma_measure_bounds(reg, v1);
        assert(rest == es.subrange(1, es.len() as int));
        lemma_dfs_exprs_props(reg, rest, v1);
        let dr = dfs_exprs(reg, rest, v1);
        let d = d0 + dr;
        assert(dfs_exprs(reg, es, v) == d);
        seq_to_set_distributes_over_add(d0, dr);
        assert(v.union(d.to_set()) =~= v1.union(dr.to_set()));

        lemma_no_dup_in_concat(d0, dr);
        assert forall|k: int|
            0 <= k < d.len() implies (#[trigger] d[k]) < reg.defs@.len() && !v.contains(d[k]) by {
            if k < d0.len() {
                assert(d[k] == d0[k]);
            } else {
                assert(d[k] == dr[k - d0.len()]);
            }
        }

        // seed coverage: every handle some element mentions is accounted for
        assert(exprs_refs(es) == expr_refs(e0).union(exprs_refs(rest)));
        assert(exprs_refs(es).subset_of(v.union(d.to_set())));

        // closedness
        assert forall|j: usize| #[trigger] d.to_set().contains(j) implies expr_refs(
            reg.defs@[j as int].def,
        ).subset_of(v.union(d.to_set())) by {
            if d0.to_set().contains(j) {
                assert(expr_refs(reg.defs@[j as int].def).subset_of(v1));
            } else {
                let k = choose|k: int| 0 <= k < d.len() && d[k] == j;
                assert(k >= d0.len()) by {
                    if k < d0.len() {
                        assert(d0.to_set().contains(d0[k]));
                    }
                }
                assert(dr.to_set().contains(dr[k - d0.len()]));
            }
        }

        // soundness
        assert(expr_refs(e0).subset_of(exprs_refs(es)));
        assert(exprs_refs(rest).subset_of(exprs_refs(es)));
        lemma_reach_mono(reg, expr_refs(e0), exprs_refs(es));
        lemma_reach_mono(reg, exprs_refs(rest), exprs_refs(es));
        assert forall|j: usize| #[trigger] d.to_set().contains(j) implies reachable_from(
            reg,
            exprs_refs(es),
        ).contains(j) by {
            if d0.to_set().contains(j) {
            } else {
                let k = choose|k: int| 0 <= k < d.len() && d[k] == j;
                assert(k >= d0.len()) by {
                    if k < d0.len() {
                        assert(d0.to_set().contains(d0[k]));
                    }
                }
                assert(dr.to_set().contains(dr[k - d0.len()]));
            }
        }
    }
}

proof fn lemma_dfs_fields_props(reg: TypeRegistry, fs: Seq<ObjectField>, v: Set<usize>)
    requires
        reg.wf(),
        wf_fields(reg, fs),
        ok_visited(reg, v),
    ensures
        dfs_post(reg, v, fields_refs(fs), dfs_fields(reg, fs, v)),
    decreases dfs_measure(reg, v), fs,
{
    if fs.len() == 0 {
        let d = dfs_fields(reg, fs, v);
        assert(d.to_set() =~= Set::<usize>::empty());
        assert(fields_refs(fs) =~= Set::<usize>::empty());
    } else {
        let e0 = fs.first().ty;
        let rest = fs.drop_first();
        assert(fs.first() == fs[0]);
        assert(wf_expr(reg, e0));
        lemma_dfs_expr_props(reg, e0, v);
        let d0 = dfs_expr(reg, e0, v);
        let v1 = v.union(d0.to_set());
        assert(ok_visited(reg, v1));
        assert(forall|i: int| 0 <= i < rest.len() ==> rest[i] == fs[i + 1]);
        assert(wf_fields(reg, rest));
        lemma_measure_superset(reg, v, v1);
        lemma_measure_bounds(reg, v1);
        assert(rest == fs.subrange(1, fs.len() as int));
        lemma_dfs_fields_props(reg, rest, v1);
        let dr = dfs_fields(reg, rest, v1);
        let d = d0 + dr;
        assert(dfs_fields(reg, fs, v) == d);
        seq_to_set_distributes_over_add(d0, dr);
        assert(v.union(d.to_set()) =~= v1.union(dr.to_set()));

        lemma_no_dup_in_concat(d0, dr);
        assert forall|k: int|
            0 <= k < d.len() implies (#[trigger] d[k]) < reg.defs@.len() && !v.contains(d[k]) by {
            if k < d0.len() {
                assert(d[k] == d0[k]);
            } else {
                assert(d[k] == dr[k - d0.len()]);
            }
        }

        assert(fields_refs(fs) == expr_refs(e0).union(fields_refs(rest)));
        assert(fields_refs(fs).subset_of(v.union(d.to_set())));

        assert forall|j: usize| #[trigger] d.to_set().contains(j) implies expr_refs(
            reg.defs@[j as int].def,
        ).subset_of(v.union(d.to_set())) by {
            if d0.to_set().contains(j) {
                assert(expr_refs(reg.defs@[j as int].def).subset_of(v1));
            } else {
                let k = choose|k: int| 0 <= k < d.len() && d[k] == j;
                assert(k >= d0.len()) by {
                    if k < d0.len() {
                        assert(d0.to_set().contains(d0[k]));
                    }
                }
                assert(dr.to_set().contains(dr[k - d0.len()]));
            }
        }

        assert(expr_refs(e0).subset_of(fields_refs(fs)));
        assert(fields_refs(rest).subset_of(fields_refs(fs)));
        lemma_reach_mono(reg, expr_refs(e0), fields_refs(fs));
        lemma_reach_mono(reg, fields_refs(rest), fields_refs(fs));
        assert forall|j: usize| #[trigger] d.to_set().contains(j) implies reachable_from(
            reg,
            fields_refs(fs),
        ).contains(j) by {
            if d0.to_set().contains(j) {
            } else {
                let k = choose|k: int| 0 <= k < d.len() && d[k] == j;
                assert(k >= d0.len()) by {
                    if k < d0.len() {
                        assert(d0.to_set().contains(d0[k]));
                    }
                }
                assert(dr.to_set().contains(dr[k - d0.len()]));
            }
        }
    }
}

/// The walk of a root type description visits exactly the definitions
/// transitively reachable from it, each exactly once.
///
/// The discovery list has no duplicates, every handle in it is valid, the
/// set of discovered handles equals the reference closure of the root, and
/// so the number of discoveries equals the size of that closure — however
/// often any single definition is referenced, and also when definitions
/// reference themselves or one another in cycles.
pub proof fn lemma_closure_exact(reg: TypeRegistry, info: TypeInfo)
    requires
        reg.wf(),
        wf_info(reg, info),
    ensures
        dfs_info(reg, info, Set::empty()).no_duplicates(),
        dfs_info(reg, info, Set::empty()).to_set() == reachable_info(reg, info),
        forall|k: int|
            0 <= k < dfs_info(reg, info, Set::empty()).len() ==> (#[trigger] dfs_info(
                reg,
                info,
                Set::empty(),
            )[k]) < reg.defs@.len(),
        dfs_info(reg, info, Set::empty()).len() == reachable_info(reg, info).len(),
{
    let v0 = Set::<usize>::empty();
    let d = dfs_info(reg, info, v0);
    assert(ok_visited(reg, v0));
    lemma_dfs_info_props(reg, info, v0);
    assert(v0.union(d.to_set()) =~= d.to_set());
    assert forall|j: usize| reachable_info(reg, info).contains(j) implies d.to_set().contains(
        j,
    ) by {
        let p = choose|p: Seq<usize>| #[trigger] is_ref_path(reg, info_refs(info), p) && p.last()
            == j;
        lemma_path_in_closed(reg, info_refs(info), d.to_set(), p);
    }
    assert(d.to_set() =~= reachable_info(reg, info));
    d.unique_seq_to_set();
}

/// The discovery list a walk accumulates: no handle twice, all valid.
pub open spec fn inv_visited(reg: TypeRegistry, s: Seq<usize>) -> bool {
    &&& s.no_duplicates()
    &&& forall|k: int| 0 <= k < s.len() ==> (#[trigger] s[k]) < reg.defs@.len()
}

proof fn lemma_inv_ok(reg: TypeRegistry, s: Seq<usize>)
    requires
        inv_visited(reg, s),
    ensures
        ok_visited(reg, s.to_set()),
{
    assert forall|i: usize| s.to_set().contains(i) implies i < reg.defs@.len() by {
        let k = choose|k: int| 0 <= k < s.len() && s[k] == i;
        assert(s[k] < reg.defs@.len());
    }
}

fn contains_handle(v: &Vec<usize>, x: usize) -> (b: bool)
    ensures
        b == v@.contains(x),
{
    let mut i: usize = 0;
    while i < v.len()
        invariant
            i <= v@.len(),
            forall|k: int| 0 <= k < i ==> v@[k] != x,
        decreases v@.len() - i,
    {
        if v[i] == x {
            assert(v@[i as int] == x);
            return true;
        }
        i += 1;
    }
    false
}

fn resolve_expr_rec(reg: &TypeRegistry, e: &TypeExpr, visited: &mut Vec<usize>)
    requires
        reg.wf(),
        wf_expr(*reg, *e),
        inv_visited(*reg, old(visited)@),
    ensures
        final(visited)@ == old(visited)@ + dfs_expr(*reg, *e, old(visited)@.to_set()),
        inv_visited(*reg, final(visited)@),
    decreases dfs_measure(*reg, visited@.to_set()), *e,
{
    match e {
        TypeExpr::Ref(info) => {
            resolve_info_rec(reg, info, visited);
        },
        TypeExpr::TypeName(tn) => {
            proof {
                assert(tn.generic_args@.skip(0) =~= tn.generic_args@);
            }
            resolve_exprs_rec(reg, &tn.generic_args, 0, visited);
        },
        TypeExpr::String(_) => {
            proof {
                assert(visited@ =~= visited@ + dfs_expr(*reg, *e, visited@.to_set()));
            }
        },
        TypeExpr::Tuple(t) => {
            proof {
                assert(t.elements@.skip(0) =~= t.elements@);
            }
            resolve_exprs_rec(reg, &t.elements, 0, visited);
        },
        TypeExpr::Object(o) => {
            proof {
                assert(o.fields@.skip(0) =~= o.fields@);
            }
            resolve_fields_rec(reg, &o.fields, 0, visited);
        },
        TypeExpr::Array(a) => {
            resolve_expr_rec(reg, &a.item, visited);
        },
        TypeExpr::Union(u) => {
            proof {
                assert(u.members@.skip(0) =~= u.members@);
            }
            resolve_exprs_rec(reg, &u.members, 0, visited);
        },
        TypeExpr::Intersection(i) => {
            proof {
                assert(i.members@.skip(0) =~= i.members@);
            }
            resolve_exprs_rec(reg, &i.members, 0, visited);
        },
    }
}

fn resolve_info_rec(reg: &TypeRegistry, info: &TypeInfo, visited: &mut Vec<usize>)
    requires
        reg.wf(),
        wf_info(*reg, *info),
        inv_visited(*reg, old(visited)@),
    ensures
        final(visited)@ == old(visited)@ + dfs_info(*reg, *info, old(visited)@.to_set()),
        inv_visited(*reg, final(visited)@),
    decreases dfs_measure(*reg, visited@.to_set()), *info,
{
    match info {
        TypeInfo::Native(n) => {
            resolve_expr_rec(reg, &n.expr, visited);
        },
        TypeInfo::Custom(c) => {
            let ghost pre = visited@;
            let ghost v0 = pre.to_set();
            if contains_handle(visited, c.def) {
                proof {
                    assert(v0.contains(c.def));
                    assert(c.generic_args@.skip(0) =~= c.generic_args@);
                }
                resolve_exprs_rec(reg, &c.generic_args, 0, visited);
            } else {
                proof {
                    assert(!v0.contains(c.def));
                    lemma_inv_ok(*reg, pre);
                    lemma_measure_insert(*reg, v0, c.def);
                }
                visited.push(c.def);
                let ghost v1seq = visited@;
                proof {
                    assert(v1seq == pre + seq![c.def]) by {
                        assert(pre.push(c.def) =~= pre + seq![c.def]);
                    }
                    seq_to_set_distributes_over_add(pre, seq![c.def]);
                    assert(seq![c.def].to_set() =~= Set::<usize>::empty().insert(c.def)) by {
                        assert(seq![c.def][0] == c.def);
                    }
                    assert(v1seq.to_set() =~= v0.insert(c.def));
                    lemma_no_dup_in_concat(pre, seq![c.def]);
                    assert(inv_visited(*reg, v1seq));
                }
                resolve_expr_rec(reg, &reg.defs[c.def].def, visited);
                let ghost v2seq = visited@;
                let ghost db = dfs_expr(*reg, reg.defs@[c.def as int].def, v0.insert(c.def));
                let ghost dm = seq![c.def] + db;
                proof {
                    assert(v2seq == v1seq + db);
                    assert(v2seq =~= pre + dm);
                    seq_to_set_distributes_over_add(pre, dm);
                    assert(v2seq.to_set() =~= v0.union(dm.to_set()));
                    assert(c.generic_args@.skip(0) =~= c.generic_args@);
                    seq_to_set_distributes_over_add(v1seq, db);
                    assert(v1seq.to_set().subset_of(v2seq.to_set()));
                    lemma_measure_superset(*reg, v1seq.to_set(), v2seq.to_set());
                    lemma_measure_bounds(*reg, v2seq.to_set());
                }
                resolve_exprs_rec(reg, &c.generic_args, 0, visited);
                proof {
                    let da = dfs_exprs(*reg, c.generic_args@, v0.union(dm.to_set()));
                    assert(visited@ == v2seq + da);
                    assert(visited@ =~= pre + (dm + da));
                    assert(dfs_info(*reg, *info, v0) == dm + da);
                }
            }
        },
    }
}

fn resolve_exprs_rec(reg: &TypeRegistry, es: &Vec<TypeExpr>, i: usize, visited: &mut Vec<usize>)
    requires
        reg.wf(),
        i <= es@.len(),
        wf_exprs(*reg, es@.skip(i as int)),
        inv_visited(*reg, old(visited)@),
    ensures
        final(visited)@ == old(visited)@ + dfs_exprs(
            *reg,
            es@.skip(i as int),
            old(visited)@.to_set(),
        ),
        inv_visited(*reg, final(visited)@),
    decreases dfs_measure(*reg, visited@.to_set()), es@.skip(i as int),
{
    let ghost tail = es@.skip(i as int);
    if i < es.len() {
        let ghost pre = visited@;
        let ghost v0 = pre.to_set();
        proof {
            assert(tail[0] == es@[i as int]);
            assert(wf_expr(*reg, es@[i as int]));
        }
        resolve_expr_rec(reg, &es[i], visited);
        let ghost mid = visited@;
        let ghost d0 = dfs_expr(*reg, es@[i as int], v0);
        proof {
            assert(mid == pre + d0);
            seq_to_set_distributes_over_add(pre, d0);
            assert(mid.to_set() =~= v0.union(d0.to_set()));
            assert(es@.skip(i as int + 1) =~= tail.drop_first());
            assert(tail.drop_first() == tail.subrange(1, tail.len() as int));
            assert(wf_exprs(*reg, es@.skip(i as int + 1))) by {
                assert(forall|k: int|
                    0 <= k < tail.drop_first().len() ==> tail.drop_first()[k] == tail[k + 1]);
            }
            assert(v0.subset_of(mid.to_set()));
            lemma_measure_superset(*reg, v0, mid.to_set());
            lemma_measure_bounds(*reg, mid.to_set());
        }
        resolve_exprs_rec(reg, es, i + 1, visited);
        proof {
            let dr = dfs_exprs(*reg, tail.drop_first(), v0.union(d0.to_set()));
            assert(visited@ == mid + dr);
            assert(visited@ =~= pre + (d0 + dr));
            assert(tail.first() == es@[i as int]);
            assert(dfs_exprs(*reg, tail, v0) == d0 + dr);
        }
    } else {
        proof {
            assert(tail.len() == 0);
            assert(visited@ =~= visited@ + dfs_exprs(*reg, tail, visited@.to_set()));
        }
    }
}

fn resolve_fields_rec(reg: &TypeRegistry, fs: &Vec<ObjectField>, i: usize, visited: &mut Vec<usize>)
    requires
        reg.wf(),
        i <= fs@.len(),
        wf_fields(*reg, fs@.skip(i as int)),
        inv_visited(*reg, old(visited)@),
    ensures
        final(visited)@ == old(visited)@ + dfs_fields(
            *reg,
            fs@.skip(i as int),
            old(visited)@.to_set(),
        ),
        inv_visited(*reg, final(visited)@),
    decreases dfs_measure(*reg, visited@.to_set()), fs@.skip(i as int),
{
    let ghost tail = fs@.skip(i as int);
    if i < fs.len() {
        let ghost pre = visited@;
        let ghost v0 = pre.to_set();
        proof {
            assert(tail[0] == fs@[i as int]);
            assert(wf_expr(*reg, fs@[i as int].ty));
        }
        resolve_expr_rec(reg, &fs[i].ty, visited);
        let ghost mid = visited@;
        let ghost d0 = dfs_expr(*reg, fs@[i as int].ty, v0);
        proof {
            assert(mid == pre + d0);
            seq_to_set_distributes_over_add(pre, d0);
            assert(mid.to_set() =~= v0.union(d0.to_set()));
            assert(fs@.skip(i as int + 1) =~= tail.drop_first());
            assert(tail.drop_first() == tail.subrange(1, tail.len() as int));
            assert(wf_fields(*reg, fs@.skip(i as int + 1))) by {
                assert(forall|k: int|
                    0 <= k < tail.drop_first().len() ==> tail.drop_first()[k] == tail[k + 1]);
            }
            assert(v0.subset_of(mid.to_set()));
            lemma_measure_superset(*reg, v0, mid.to_set());
            lemma_measure_bounds(*reg, mid.to_set());
        }
        resolve_fields_rec(reg, fs, i + 1, visited);
        proof {
            let dr = dfs_fields(*reg, tail.drop_first(), v0.union(d0.to_set()));
            assert(visited@ == mid + dr);
            assert(visited@ =~= pre + (d0 + dr));
            assert(tail.first() == fs@[i as int]);
            assert(dfs_fields(*reg, tail, v0) == d0 + dr);
        }
    } else {
        proof {
            assert(tail.len() == 0);
            assert(visited@ =~= visited@ + dfs_fields(*reg, tail, visited@.to_set()));
        }
    }
}

/// Computes the deduplicated transitive closure of named definitions
/// reachable from the root description `info`, as a list of registry
/// handles in first-discovery preorder.
///
/// Each reachable definition appears exactly once: the result has no
/// duplicates and its handles are exactly [`reachable_info`].
pub fn resolve_info(reg: &TypeRegistry, info: &TypeInfo) -> (r: Vec<usize>)
    requires
        reg.wf(),
        wf_info(*reg, *info),
    ensures
        r@ == dfs_info(*reg, *info, Set::empty()),
        r@.no_duplicates(),
        forall|k: int| 0 <= k < r@.len() ==> (#[trigger] r@[k]) < reg.defs@.len(),
        r@.to_set() == reachable_info(*reg, *info),
{
    let mut visited: Vec<usize> = Vec::new();
    proof {
        assert(inv_visited(*reg, visited@));
    }
    resolve_info_rec(reg, info, &mut visited);
    proof {
        assert(Seq::<usize>::empty().to_set() =~= Set::<usize>::empty());
        assert(visited@ =~= Seq::<usize>::empty() + dfs_info(*reg, *info, Set::empty()));
        lemma_closure_exact(*reg, *info);
    }
    visited
}

/// A walk can never discover more definitions than the registry holds.
pub proof fn lemma_closure_bound(reg: TypeRegistry, info: TypeInfo)
    requires
        reg.wf(),
        wf_info(reg, info),
    ensures
        dfs_info(reg, info, Set::empty()).len() <= reg.defs@.len(),
{
    let d = dfs_info(reg, info, Set::<usize>::empty());
    lemma_closure_exact(reg, info);
    d.unique_seq_to_set();
    let n = reg.defs@.len() as nat;
    lemma_below_card(n);
    assert(d.to_set().subset_of(below(n))) by {
        assert forall|j: usize| d.to_set().contains(j) implies below(n).contains(j) by {
            let k = choose|k: int| 0 <= k < d.len() && d[k] == j;
            assert(d[k] < reg.defs@.len());
        }
    }
    lemma_len_subset(d.to_set(), below(n));
}

} // verus!
