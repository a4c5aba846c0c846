//! Properties of the reconciliation, proved once and for all: the unused
//! set is empty exactly when every declared name is referenced, holds an
//! unreferenced name exactly once, and neither computation depends on
//! the order in which the member packages are traversed; the sorted
//! presentations are fully determined by the manifests.

use crate::model::{distinct_paths, referenced, references, registry_names, Package};
use crate::order::{
    chars_leq, lemma_chars_leq_antisymmetric, lemma_lex_leq_total_ordering, lex_leq,
};
use crate::reconcile::{
    distinct_labels, lemma_count_ge_two_implies_dup, lemma_filter_push,
    lemma_violations_membership, pair_leq, unused_of, violation_pair, violations_of,
};
use vstd::prelude::*;
use vstd::relations::sorted_by;

verus! {

/// The unused computation is deterministic: two sorted name lists that
/// both hold exactly the unused names of the same manifests are
/// identical. Running the computation twice on the same input yields
/// identical output.
pub proof fn lemma_unused_deterministic(
    r1: Seq<Seq<char>>,
    r2: Seq<Seq<char>>,
    ws: Seq<Seq<char>>,
    pkgs: Seq<Package>,
)
    requires
        sorted_by(r1, lex_leq()),
        sorted_by(r2, lex_leq()),
        r1.to_multiset() == unused_of(ws, pkgs).to_multiset(),
        r2.to_multiset() == unused_of(ws, pkgs).to_multiset(),
    ensures
        r1 == r2,
{
    lemma_lex_leq_total_ordering();
    vstd::seq_lib::lemma_sorted_unique(r1, r2, lex_leq());
}

/// Two groupings sorted by path, with pairwise distinct paths, holding
/// the same pairs, are identical.
pub proof fn lemma_sorted_distinct_groups_unique(
    x: Seq<(Seq<char>, Seq<Seq<char>>)>,
    y: Seq<(Seq<char>, Seq<Seq<char>>)>,
)
    requires
        sorted_by(x, pair_leq()),
        sorted_by(y, pair_leq()),
        distinct_labels(x),
        distinct_labels(y),
        forall|e: (Seq<char>, Seq<Seq<char>>)| #[trigger] x.contains(e) <==> #[trigger] y.contains(
            e,
        ),
    ensures
        x =~= y,
    decreases x.len(),
{
    let leq = pair_leq();
    if x.len() == 0 {
        if y.len() > 0 {
            assert(y.contains(y[0]));
            assert(x.contains(y[0]));
            assert(false);
        }
    } else if y.len() == 0 {
        assert(x.contains(x[0]));
        assert(y.contains(x[0]));
        assert(false);
    } else {
        assert(x.contains(x[0]));
        assert(y.contains(x[0]));
        let k = choose|k: int| 0 <= k < y.len() && y[k] == x[0];
        assert(y.contains(y[0]));
        assert(x.contains(y[0]));
        let m = choose|m: int| 0 <= m < x.len() && x[m] == y[0];
        if k != 0 && m != 0 {
            assert(leq(y[0], y[k]));
            assert(chars_leq(y[0].0, x[0].0));
            assert(y[0].0 != y[k].0);
            assert(leq(x[0], x[m]));
            assert(chars_leq(x[0].0, y[0].0));
            assert(x[0].0 != x[m].0);
            lemma_chars_leq_antisymmetric(x[0].0, y[0].0);
            assert(false);
        }
        assert(x[0] == y[0]);
        let xt = x.drop_first();
        let yt = y.drop_first();
        assert forall|i: int, j: int| 0 <= i < j < xt.len() implies leq(xt[i], xt[j]) by {
            assert(xt[i] == x[i + 1] && xt[j] == x[j + 1]);
            assert(leq(x[i + 1], x[j + 1]));
        }
        assert forall|i: int, j: int| 0 <= i < j < yt.len() implies leq(yt[i], yt[j]) by {
            assert(yt[i] == y[i + 1] && yt[j] == y[j + 1]);
            assert(leq(y[i + 1], y[j + 1]));
        }
        assert forall|i: int, j: int| 0 <= i < j < xt.len() implies (#[trigger] xt[i]).0 != (
        #[trigger] xt[j]).0 by {
            assert(xt[i] == x[i + 1] && xt[j] == x[j + 1]);
        }
        assert forall|i: int, j: int| 0 <= i < j < yt.len() implies (#[trigger] yt[i]).0 != (
        #[trigger] yt[j]).0 by {
            assert(yt[i] == y[i + 1] && yt[j] == y[j + 1]);
        }
        assert forall|e: (Seq<char>, Seq<Seq<char>>)| #[trigger] xt.contains(e)
            <==> #[trigger] yt.contains(e) by {
            if xt.contains(e) {
                let i = choose|i: int| 0 <= i < xt.len() && xt[i] == e;
                assert(x[i + 1] == e);
                assert(x.contains(e));
                assert(e.0 != x[0].0);
                assert(y.contains(e));
                let j = choose|j: int| 0 <= j < y.len() && y[j] == e;
                assert(j != 0);
                assert(yt[j - 1] == e);
                assert(yt.contains(e));
            }
            if yt.contains(e) {
                let i = choose|i: int| 0 <= i < yt.len() && yt[i] == e;
                assert(y[i + 1] == e);
                assert(y.contains(e));
                assert(e.0 != y[0].0);
                assert(x.contains(e));
                let j = choose|j: int| 0 <= j < x.len() && x[j] == e;
                assert(j != 0);
                assert(xt[j - 1] == e);
                assert(xt.contains(e));
            }
        }
        lemma_sorted_distinct_groups_unique(xt, yt);
        assert(x.len() == y.len());
        assert forall|i: int| 0 <= i < x.len() implies x[i] == y[i] by {
            if i > 0 {
                assert(x[i] == xt[i - 1] && y[i] == yt[i - 1]);
            }
        }
    }
}

/// The violation computation is deterministic: two sorted groupings with
/// distinct paths that both hold exactly the violations of the same
/// members are identical.
pub proof fn lemma_violations_deterministic(
    v1: Seq<(Seq<char>, Seq<Seq<char>>)>,
    v2: Seq<(Seq<char>, Seq<Seq<char>>)>,
    pkgs: Seq<Package>,
)
    requires
        sorted_by(v1, pair_leq()),
        sorted_by(v2, pair_leq()),
        distinct_labels(v1),
        distinct_labels(v2),
        v1.to_multiset() == violations_of(pkgs).to_multiset(),
        v2.to_multiset() == violations_of(pkgs).to_multiset(),
    ensures
        v1 == v2,
{
    broadcast use vstd::seq_lib::group_to_multiset_ensures;

    assert forall|e: (Seq<char>, Seq<Seq<char>>)| #[trigger] v1.contains(e) <==> #[trigger] v2.contains(
        e,
    ) by {
        assert(v1.contains(e) <==> v1.to_multiset().count(e) > 0);
        assert(v2.contains(e) <==> v2.to_multiset().count(e) > 0);
    }
    lemma_sorted_distinct_groups_unique(v1, v2);
}

/// Whether a name is referenced does not depend on the order of the
/// member packages.
pub proof fn lemma_referenced_permutation(pkgs1: Seq<Package>, pkgs2: Seq<Package>, n: Seq<char>)
    requires
        pkgs1.to_multiset() == pkgs2.to_multiset(),
    ensures
        referenced(pkgs1, n) == referenced(pkgs2, n),
{
    broadcast use vstd::seq_lib::group_to_multiset_ensures;

    if referenced(pkgs1, n) {
        let i = choose|i: int| 0 <= i < pkgs1.len() && references(#[trigger] pkgs1[i], n);
        assert(pkgs1.contains(pkgs1[i]));
        vstd::seq_lib::to_multiset_contains(pkgs1, pkgs1[i]);
        vstd::seq_lib::to_multiset_contains(pkgs2, pkgs1[i]);
        assert(pkgs2.contains(pkgs1[i]));
        let j = choose|j: int| 0 <= j < pkgs2.len() && pkgs2[j] == pkgs1[i];
        assert(references(pkgs2[j], n));
    }
    if referenced(pkgs2, n) {
        let i = choose|i: int| 0 <= i < pkgs2.len() && references(#[trigger] pkgs2[i], n);
        assert(pkgs2.contains(pkgs2[i]));
        vstd::seq_lib::to_multiset_contains(pkgs2, pkgs2[i]);
        vstd::seq_lib::to_multiset_contains(pkgs1, pkgs2[i]);
        assert(pkgs1.contains(pkgs2[i]));
        let j = choose|j: int| 0 <= j < pkgs1.len() && pkgs1[j] == pkgs2[i];
        assert(references(pkgs1[j], n));
    }
}

/// Order independence of the unused computation: permuting the member
/// packages never changes the unused set.
pub proof fn lemma_unused_order_independent(
    ws: Seq<Seq<char>>,
    pkgs1: Seq<Package>,
    pkgs2: Seq<Package>,
)
    requires
        pkgs1.to_multiset() == pkgs2.to_multiset(),
    ensures
        unused_of(ws, pkgs1) == unused_of(ws, pkgs2),
    decreases ws.len(),
{
    let pred1 = |n: Seq<char>| !referenced(pkgs1, n);
    let pred2 = |n: Seq<char>| !referenced(pkgs2, n);
    if ws.len() == 0 {
        reveal(Seq::filter);
        assert(unused_of(ws, pkgs1) =~= unused_of(ws, pkgs2));
    } else {
        let init = ws.drop_last();
        let x = ws.last();
        assert(ws =~= init.push(x));
        lemma_filter_push(init, x, pred1);
        lemma_filter_push(init, x, pred2);
        lemma_unused_order_independent(init, pkgs1, pkgs2);
        lemma_referenced_permutation(pkgs1, pkgs2, x);
        assert(pred1(x) == pred2(x));
    }
}

/// Order independence of the violation computation: permuting the member
/// packages never changes the sorted violation groupings.
pub proof fn lemma_violations_order_independent(
    pkgs1: Seq<Package>,
    pkgs2: Seq<Package>,
    v1: Seq<(Seq<char>, Seq<Seq<char>>)>,
    v2: Seq<(Seq<char>, Seq<Seq<char>>)>,
)
    requires
        pkgs1.to_multiset() == pkgs2.to_multiset(),
        sorted_by(v1, pair_leq()),
        sorted_by(v2, pair_leq()),
        distinct_labels(v1),
        distinct_labels(v2),
        v1.to_multiset() == violations_of(pkgs1).to_multiset(),
        v2.to_multiset() == violations_of(pkgs2).to_multiset(),
    ensures
        v1 == v2,
{
    broadcast use vstd::seq_lib::group_to_multiset_ensures;

    assert forall|e: (Seq<char>, Seq<Seq<char>>)| #[trigger] v1.contains(e) <==> #[trigger] v2.contains(
        e,
    ) by {
        lemma_violations_membership(pkgs1, e);
        lemma_violations_membership(pkgs2, e);
        assert(v1.contains(e) <==> v1.to_multiset().count(e) > 0);
        assert(v2.contains(e) <==> v2.to_multiset().count(e) > 0);
        assert(v1.contains(e) <==> violations_of(pkgs1).contains(e));
        assert(v2.contains(e) <==> violations_of(pkgs2).contains(e));
        if violations_of(pkgs1).contains(e) {
            let i = choose|i: int|
                0 <= i < pkgs1.len() && registry_names(#[trigger] pkgs1[i]).len() > 0 && e
                    == violation_pair(pkgs1[i]);
            assert(pkgs1.contains(pkgs1[i]));
            vstd::seq_lib::to_multiset_contains(pkgs1, pkgs1[i]);
            vstd::seq_lib::to_multiset_contains(pkgs2, pkgs1[i]);
            assert(pkgs2.contains(pkgs1[i]));
            let j = choose|j: int| 0 <= j < pkgs2.len() && pkgs2[j] == pkgs1[i];
            assert(registry_names(pkgs2[j]).len() > 0 && e == violation_pair(pkgs2[j]));
        }
        if violations_of(pkgs2).contains(e) {
            let i = choose|i: int|
                0 <= i < pkgs2.len() && registry_names(#[trigger] pkgs2[i]).len() > 0 && e
                    == violation_pair(pkgs2[i]);
            assert(pkgs2.contains(pkgs2[i]));
            vstd::seq_lib::to_multiset_contains(pkgs2, pkgs2[i]);
            vstd::seq_lib::to_multiset_contains(pkgs1, pkgs2[i]);
            assert(pkgs1.contains(pkgs2[i]));
            let j = choose|j: int| 0 <= j < pkgs1.len() && pkgs1[j] == pkgs2[i];
            assert(registry_names(pkgs1[j]).len() > 0 && e == violation_pair(pkgs1[j]));
        }
    }
    lemma_sorted_distinct_groups_unique(v1, v2);
}

/// When every workspace-declared name is referenced by at least one
/// member, the unused set is empty (and the audit exits with code 0).
pub proof fn lemma_all_used_unused_empty(ws: Seq<Seq<char>>, pkgs: Seq<Package>)
    requires
        forall|i: int| 0 <= i < ws.len() ==> referenced(pkgs, #[trigger] ws[i]),
    ensures
        unused_of(ws, pkgs) =~= Seq::<Seq<char>>::empty(),
    decreases ws.len(),
{
    let pred = |n: Seq<char>| !referenced(pkgs, n);
    if ws.len() == 0 {
        reveal(Seq::filter);
    } else {
        let init = ws.drop_last();
        let x = ws.last();
        assert(ws =~= init.push(x));
        lemma_filter_push(init, x, pred);
        assert forall|i: int| 0 <= i < init.len() implies referenced(pkgs, #[trigger] init[i]) by {
            assert(init[i] == ws[i]);
        }
        lemma_all_used_unused_empty(init, pkgs);
        assert(referenced(pkgs, x)) by {
            assert(ws[ws.len() - 1] == x);
        }
        assert(!pred(x));
    }
}

/// In a fully used workspace the computed name list itself is empty: the
/// audit reports no findings and the run exits with code 0.
pub proof fn lemma_all_used_no_findings(ws: Seq<Seq<char>>, pkgs: Seq<Package>, r: Seq<Seq<char>>)
    requires
        forall|i: int| 0 <= i < ws.len() ==> referenced(pkgs, #[trigger] ws[i]),
        r.to_multiset() == unused_of(ws, pkgs).to_multiset(),
    ensures
        r.len() == 0,
{
    broadcast use vstd::seq_lib::group_to_multiset_ensures;

    lemma_all_used_unused_empty(ws, pkgs);
    assert(r.len() == r.to_multiset().len());
    assert(unused_of(ws, pkgs).len() == unused_of(ws, pkgs).to_multiset().len());
}

/// Filtering keeps every occurrence of an element that satisfies the
/// predicate.
pub proof fn lemma_filter_count_kept<A>(s: Seq<A>, pred: spec_fn(A) -> bool, x: A)
    requires
        pred(x),
    ensures
        s.filter(pred).to_multiset().count(x) == s.to_multiset().count(x),
    decreases s.len(),
{
    broadcast use vstd::seq_lib::group_to_multiset_ensures;

    if s.len() == 0 {
        reveal(Seq::filter);
        assert(s.filter(pred) =~= s);
    } else {
        let init = s.drop_last();
        let last = s.last();
        assert(s =~= init.push(last));
        lemma_filter_push(init, last, pred);
        lemma_filter_count_kept(init, pred, x);
        vstd::seq_lib::to_multiset_build(init, last);
        if pred(last) {
            vstd::seq_lib::to_multiset_build(init.filter(pred), last);
        }
    }
}

/// A workspace-declared name that no member references appears in the
/// unused set exactly once, however many members reference similarly
/// named dependencies.
pub proof fn lemma_unreferenced_once(ws: Seq<Seq<char>>, pkgs: Seq<Package>, n: Seq<char>)
    requires
        forall|i: int, j: int| 0 <= i < j < ws.len() ==> ws[i] != ws[j],
        ws.contains(n),
        !referenced(pkgs, n),
    ensures
        unused_of(ws, pkgs).to_multiset().count(n) == 1,
{
    broadcast use vstd::seq_lib::group_to_multiset_ensures;

    let pred = |m: Seq<char>| !referenced(pkgs, m);
    lemma_filter_count_kept(ws, pred, n);
    assert(ws.to_multiset().count(n) > 0);
    if ws.to_multiset().count(n) >= 2 {
        lemma_count_ge_two_implies_dup(ws, n);
        let (i, j): (int, int) = choose|i: int, j: int|
            0 <= i < j < ws.len() && #[trigger] ws[i] == n && #[trigger] ws[j] == n;
        assert(false);
    }
}

/// What a filtered sequence holds, the sequence holds.
pub proof fn lemma_filter_subset<A>(s: Seq<A>, pred: spec_fn(A) -> bool, e: A)
    requires
        s.filter(pred).contains(e),
    ensures
        s.contains(e),
    decreases s.len(),
{
    if s.len() == 0 {
        reveal(Seq::filter);
    } else {
        let init = s.drop_last();
        let last = s.last();
        assert(s =~= init.push(last));
        lemma_filter_push(init, last, pred);
        if pred(last) {
            assert(s.filter(pred) == init.filter(pred).push(last));
            if e == last {
                assert(s[s.len() - 1] == e);
            } else {
                let k = choose|k: int| 0 <= k < s.filter(pred).len() && s.filter(pred)[k] == e;
                assert(k < init.filter(pred).len());
                assert(init.filter(pred).contains(e));
                lemma_filter_subset(init, pred, e);
                let m = choose|m: int| 0 <= m < init.len() && init[m] == e;
                assert(s[m] == e);
            }
        } else {
            assert(s.filter(pred) == init.filter(pred));
            lemma_filter_subset(init, pred, e);
            let m = choose|m: int| 0 <= m < init.len() && init[m] == e;
            assert(s[m] == e);
        }
    }
}

/// The mandatory policy, member by member: a member with a
/// registry-sourced dependency appears among the violations, under its
/// manifest path, with that dependency's name; a member all of whose
/// dependencies are workspace-inherited never appears.
pub proof fn lemma_mandatory_policy(pkgs: Seq<Package>, j: int)
    requires
        distinct_paths(pkgs),
        0 <= j < pkgs.len(),
    ensures
        registry_names(pkgs[j]).len() > 0 ==> violations_of(pkgs).contains(violation_pair(pkgs[j])),
        (forall|k: int|
            0 <= k < pkgs[j].deps@.len() ==> (#[trigger] pkgs[j].deps@[k]).source
                is WorkspaceInherited) ==> !(exists|e: (Seq<char>, Seq<Seq<char>>)|
            #[trigger] violations_of(pkgs).contains(e) && e.0 == pkgs[j].manifest_path@),
{
    if registry_names(pkgs[j]).len() > 0 {
        lemma_violations_membership(pkgs, violation_pair(pkgs[j]));
    }
    if forall|k: int|
        0 <= k < pkgs[j].deps@.len() ==> (#[trigger] pkgs[j].deps@[k]).source
            is WorkspaceInherited {
        let rpred = |d: crate::model::Dependency| d.source is Registry;
        assert(registry_names(pkgs[j]).len() == 0) by {
            if pkgs[j].deps@.filter(rpred).len() > 0 {
                let d = pkgs[j].deps@.filter(rpred)[0];
                assert(pkgs[j].deps@.filter(rpred).contains(d));
                pkgs[j].deps@.lemma_filter_pred(rpred, 0);
                lemma_filter_subset(pkgs[j].deps@, rpred, d);
                let k = choose|k: int| 0 <= k < pkgs[j].deps@.len() && pkgs[j].deps@[k] == d;
                assert(false);
            }
        }
        if exists|e: (Seq<char>, Seq<Seq<char>>)|
            #[trigger] violations_of(pkgs).contains(e) && e.0 == pkgs[j].manifest_path@ {
            let e = choose|e: (Seq<char>, Seq<Seq<char>>)|
                #[trigger] violations_of(pkgs).contains(e) && e.0 == pkgs[j].manifest_path@;
            lemma_violations_membership(pkgs, e);
            let i = choose|i: int|
                0 <= i < pkgs.len() && registry_names(#[trigger] pkgs[i]).len() > 0 && e
                    == violation_pair(pkgs[i]);
            assert(pkgs[i].manifest_path@ == pkgs[j].manifest_path@);
            assert(i == j);
            assert(false);
        }
    }
}

} // verus!
