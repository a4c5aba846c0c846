//! The reconciliation engine: the unused-workspace-dependency set, and
//! the per-package violations of the mandatory-workspace-dependency
//! policy.
//!
//! Both computations run over the same member packages and are logically
//! independent: a dependency name may be "used" (and so not unused) and
//! still be a registry-sourced policy violation.

use crate::model::{
    distinct_paths, referenced, references, registry_names, DepSource, Dependency, Package,
};
use crate::order::{
    chars_leq, lemma_chars_leq_connected, lemma_chars_leq_reflexive, lemma_chars_leq_transitive,
    lemma_names_view_push, lex_leq, names_view, sort_names, str_leq,
};
use crate::report::{group_view, groups_view, ReportGroup};
use vstd::prelude::*;
use vstd::relations::sorted_by;

verus! {

/// The unused subset of the workspace-declared names: those that no
/// member package references, in declaration order.
pub open spec fn unused_of(ws: Seq<Seq<char>>, pkgs: Seq<Package>) -> Seq<Seq<char>> {
    ws.filter(|n: Seq<char>| !referenced(pkgs, n))
}

/// One violation grouping: the manifest path of a member package and the
/// names of its registry-sourced dependencies.
pub open spec fn violation_pair(p: Package) -> (Seq<char>, Seq<Seq<char>>) {
    (p.manifest_path@, registry_names(p))
}

/// The violation groupings of the packages that have any, in package
/// order.
pub open spec fn violations_of(pkgs: Seq<Package>) -> Seq<(Seq<char>, Seq<Seq<char>>)> {
    pkgs.filter(|p: Package| registry_names(p).len() > 0).map_values(
        |p: Package| violation_pair(p),
    )
}

/// The order on violation groupings: by manifest path.
pub open spec fn pair_leq() -> spec_fn(
    (Seq<char>, Seq<Seq<char>>),
    (Seq<char>, Seq<Seq<char>>),
) -> bool {
    |a: (Seq<char>, Seq<Seq<char>>), b: (Seq<char>, Seq<Seq<char>>)| chars_leq(a.0, b.0)
}

/// No two groupings carry the same manifest path.
pub open spec fn distinct_labels(s: Seq<(Seq<char>, Seq<Seq<char>>)>) -> bool {
    forall|i: int, j: int| 0 <= i < j < s.len() ==> (#[trigger] s[i]).0 != (#[trigger] s[j]).0
}

/// Filtering a sequence extended by one element keeps the old selection
/// and appends the new element exactly when it satisfies the predicate.
pub proof fn lemma_filter_push<A>(s: Seq<A>, x: A, pred: spec_fn(A) -> bool)
    ensures
        s.push(x).filter(pred) == if pred(x) {
            s.filter(pred).push(x)
        } else {
            s.filter(pred)
        },
{
    reveal(Seq::filter);
    assert(s.push(x).drop_last() =~= s);
    assert(s.push(x).last() == x);
}

/// Mapping over a sequence extended by one element appends the mapped
/// element.
pub proof fn lemma_map_push<A, B>(s: Seq<A>, f: spec_fn(A) -> B, x: A)
    ensures
        s.push(x).map_values(f) =~= s.map_values(f).push(f(x)),
{
}

/// Decides whether the member packages' manifest paths are pairwise
/// distinct, the well-formedness that the violation computation needs.
pub fn paths_distinct(packages: &Vec<Package>) -> (b: bool)
    ensures
        b == distinct_paths(packages@),
{
    let mut i: usize = 0;
    while i < packages.len()
        invariant
            i <= packages@.len(),
            forall|a: int, b: int|
                0 <= a < b < packages@.len() && a < i ==> (#[trigger] packages@[a].manifest_path@)
                    != (#[trigger] packages@[b].manifest_path@),
        decreases packages@.len() - i,
    {
        let mut j: usize = i + 1;
        while j < packages.len()
            invariant
                i < j,
                j <= packages@.len(),
                i < packages@.len(),
                forall|b: int|
                    i < b < j ==> (#[trigger] packages@[b].manifest_path@)
                        != packages@[i as int].manifest_path@,
            decreases packages@.len() - j,
        {
            if packages[i].manifest_path == packages[j].manifest_path {
                return false;
            }
            j = j + 1;
        }
        i = i + 1;
    }
    true
}

/// Whether `p` declares a dependency called `name`, under any source.
pub fn package_references(p: &Package, name: &String) -> (b: bool)
    ensures
        b == references(*p, name@),
{
    let mut i: usize = 0;
    while i < p.deps.len()
        invariant
            i <= p.deps@.len(),
            forall|k: int| 0 <= k < i ==> (#[trigger] p.deps@[k]).name@ != name@,
        decreases p.deps@.len() - i,
    {
        if p.deps[i].name == *name {
            proof {
                assert(crate::model::dep_names(*p)[i as int] == name@);
            }
            return true;
        }
        i = i + 1;
    }
    proof {
        assert forall|k: int| 0 <= k < crate::model::dep_names(*p).len() implies (
        #[trigger] crate::model::dep_names(*p)[k]) != name@ by {
            assert(crate::model::dep_names(*p)[k] == p.deps@[k].name@);
        }
    }
    false
}

/// Whether any member package declares a dependency called `name`.
pub fn any_references(packages: &Vec<Package>, name: &String) -> (b: bool)
    ensures
        b == referenced(packages@, name@),
{
    let mut i: usize = 0;
    while i < packages.len()
        invariant
            i <= packages@.len(),
            forall|k: int| 0 <= k < i ==> !references(#[trigger] packages@[k], name@),
        decreases packages@.len() - i,
    {
        if package_references(&packages[i], name) {
            return true;
        }
        i = i + 1;
    }
    false
}

/// The unused-dependency computation: every workspace-declared name that
/// no member package references, whatever the source under which a
/// member references it. The result is sorted lexicographically and
/// holds exactly the unused names.
pub fn unused_workspace_dependencies(workspace_deps: &Vec<String>, packages: &Vec<Package>) -> (r:
    Vec<String>)
    ensures
        sorted_by(names_view(r@), lex_leq()),
        names_view(r@).to_multiset() == unused_of(
            names_view(workspace_deps@),
            packages@,
        ).to_multiset(),
{
    let ghost pred = |n: Seq<char>| !referenced(packages@, n);
    let mut kept: Vec<String> = Vec::new();
    let mut i: usize = 0;
    proof {
        assert(names_view(workspace_deps@.subrange(0, 0)) =~= Seq::<Seq<char>>::empty());
        assert(Seq::<Seq<char>>::empty().filter(pred) =~= names_view(kept@)) by {
            reveal(Seq::filter);
        }
    }
    while i < workspace_deps.len()
        invariant
            i <= workspace_deps@.len(),
            pred == (|n: Seq<char>| !referenced(packages@, n)),
            names_view(kept@) == names_view(workspace_deps@.subrange(0, i as int)).filter(pred),
        decreases workspace_deps@.len() - i,
    {
        let used = any_references(packages, &workspace_deps[i]);
        let ghost prefix = names_view(workspace_deps@.subrange(0, i as int));
        proof {
            assert(workspace_deps@.subrange(0, i + 1) =~= workspace_deps@.subrange(
                0,
                i as int,
            ).push(workspace_deps@[i as int]));
            lemma_names_view_push(
                workspace_deps@.subrange(0, i as int),
                workspace_deps@[i as int],
            );
            assert(names_view(workspace_deps@.subrange(0, i + 1)) == prefix.push(
                workspace_deps@[i as int]@,
            ));
            lemma_filter_push(prefix, workspace_deps@[i as int]@, pred);
        }
        if !used {
            let ghost kept0 = kept@;
            kept.push(workspace_deps[i].clone());
            proof {
                lemma_names_view_push(kept0, workspace_deps@[i as int]);
                assert(names_view(kept@) =~= names_view(kept0).push(workspace_deps@[i as int]@));
            }
        }
        i = i + 1;
    }
    proof {
        assert(workspace_deps@.subrange(0, workspace_deps@.len() as int) =~= workspace_deps@);
    }
    sort_names(kept)
}

/// The names of `p`'s registry-sourced dependencies, in declaration
/// order.
pub fn registry_dependency_names(p: &Package) -> (names: Vec<String>)
    ensures
        names_view(names@) == registry_names(*p),
{
    let ghost pred = |d: Dependency| d.source is Registry;
    let ghost f = |d: Dependency| d.name@;
    let mut names: Vec<String> = Vec::new();
    let mut i: usize = 0;
    proof {
        reveal(Seq::filter);
        assert(p.deps@.subrange(0, 0) =~= Seq::<Dependency>::empty());
        assert(names_view(names@) =~= p.deps@.subrange(0, 0).filter(pred).map_values(f));
    }
    while i < p.deps.len()
        invariant
            i <= p.deps@.len(),
            pred == (|d: Dependency| d.source is Registry),
            f == (|d: Dependency| d.name@),
            names_view(names@) == p.deps@.subrange(0, i as int).filter(pred).map_values(f),
        decreases p.deps@.len() - i,
    {
        let ghost prefix = p.deps@.subrange(0, i as int);
        proof {
            assert(p.deps@.subrange(0, i + 1) =~= prefix.push(p.deps@[i as int]));
            lemma_filter_push(prefix, p.deps@[i as int], pred);
            lemma_map_push(prefix.filter(pred), f, p.deps@[i as int]);
        }
        match p.deps[i].source {
            DepSource::Registry => {
                let ghost names0 = names@;
                names.push(p.deps[i].name.clone());
                proof {
                    lemma_names_view_push(names0, p.deps@[i as int].name);
                    assert(names_view(names@) =~= names_view(names0).push(f(p.deps@[i as int])));
                }
            },
            _ => {},
        }
        i = i + 1;
    }
    proof {
        assert(p.deps@.subrange(0, p.deps@.len() as int) =~= p.deps@);
    }
    names
}

/// Mapping an inserted grouping to its view commutes with the insertion.
pub proof fn lemma_groups_view_insert(s: Seq<ReportGroup>, i: int, x: ReportGroup)
    requires
        0 <= i <= s.len(),
    ensures
        groups_view(s.insert(i, x)) =~= groups_view(s).insert(i, group_view(x)),
{
    assert forall|k: int| 0 <= k < s.len() + 1 implies groups_view(s.insert(i, x))[k]
        == groups_view(s).insert(i, group_view(x))[k] by {
        if k < i {
            assert(s.insert(i, x)[k] == s[k]);
        } else if k == i {
            assert(s.insert(i, x)[k] == x);
        } else {
            assert(s.insert(i, x)[k] == s[k - 1]);
        }
    }
}

/// Inserting a grouping between its neighbours in the path order keeps a
/// sequence sorted.
pub proof fn lemma_sorted_insert_groups(
    v: Seq<(Seq<char>, Seq<Seq<char>>)>,
    pos: int,
    x: (Seq<char>, Seq<Seq<char>>),
)
    requires
        sorted_by(v, pair_leq()),
        0 <= pos <= v.len(),
        forall|k: int| 0 <= k < pos ==> chars_leq((#[trigger] v[k]).0, x.0),
        pos < v.len() ==> chars_leq(x.0, v[pos].0),
    ensures
        sorted_by(v.insert(pos, x), pair_leq()),
{
    let leq = pair_leq();
    let w = v.insert(pos, x);
    assert forall|i: int, j: int| 0 <= i <= j < w.len() implies leq(w[i], w[j]) by {
        if i == j {
            lemma_chars_leq_reflexive(w[i].0);
        } else if j < pos {
            assert(w[i] == v[i] && w[j] == v[j]);
            assert(leq(v[i], v[j]));
        } else if j == pos {
            assert(w[i] == v[i] && w[j] == x);
        } else if i < pos {
            assert(w[i] == v[i] && w[j] == v[j - 1]);
            if pos == j - 1 {
                assert(chars_leq(v[i].0, x.0));
                assert(chars_leq(x.0, v[pos].0));
                lemma_chars_leq_transitive(v[i].0, x.0, v[j - 1].0);
            } else {
                assert(leq(v[i], v[j - 1]));
            }
        } else if i == pos {
            assert(w[i] == x && w[j] == v[j - 1]);
            assert(pos <= j - 1 && pos < v.len());
            if pos == j - 1 {
                assert(chars_leq(x.0, v[pos].0));
            } else {
                assert(leq(v[pos], v[j - 1]));
                lemma_chars_leq_transitive(x.0, v[pos].0, v[j - 1].0);
            }
        } else {
            assert(w[i] == v[i - 1] && w[j] == v[j - 1]);
            assert(leq(v[i - 1], v[j - 1]));
        }
    }
}

/// The position at which a grouping can be inserted into a vector sorted
/// by path without disturbing the order.
fn group_insert_position(out: &Vec<ReportGroup>, x: &ReportGroup) -> (pos: usize)
    requires
        sorted_by(groups_view(out@), pair_leq()),
    ensures
        pos <= out@.len(),
        forall|k: int| 0 <= k < pos ==> chars_leq((#[trigger] groups_view(out@)[k]).0, x.label@),
        pos < out@.len() ==> chars_leq(x.label@, groups_view(out@)[pos as int].0),
{
    let mut pos: usize = 0;
    while pos < out.len()
        invariant_except_break
            pos <= out@.len(),
            forall|k: int| 0 <= k < pos ==> chars_leq((#[trigger] groups_view(out@)[k]).0, x.label@),
        ensures
            pos <= out@.len(),
            forall|k: int| 0 <= k < pos ==> chars_leq((#[trigger] groups_view(out@)[k]).0, x.label@),
            pos < out@.len() ==> chars_leq(x.label@, groups_view(out@)[pos as int].0),
        decreases out@.len() - pos,
    {
        if !str_leq(out[pos].label.as_str(), x.label.as_str()) {
            proof {
                lemma_chars_leq_connected(out@[pos as int].label@, x.label@);
                assert(groups_view(out@)[pos as int] == group_view(out@[pos as int]));
            }
            break;
        }
        proof {
            assert(groups_view(out@)[pos as int] == group_view(out@[pos as int]));
        }
        pos = pos + 1;
    }
    pos
}

/// Sorts groupings by manifest path; the result holds exactly the given
/// groupings.
fn sort_groups(input: Vec<ReportGroup>) -> (r: Vec<ReportGroup>)
    ensures
        sorted_by(groups_view(r@), pair_leq()),
        groups_view(r@).to_multiset() == groups_view(input@).to_multiset(),
{
    broadcast use vstd::seq_lib::group_to_multiset_ensures;
    broadcast use vstd::multiset::group_multiset_axioms;

    let ghost total = groups_view(input@).to_multiset();
    let mut rest = input;
    let mut out: Vec<ReportGroup> = Vec::new();
    proof {
        assert(groups_view(out@).to_multiset().add(groups_view(rest@).to_multiset()) =~= total);
    }
    while rest.len() > 0
        invariant
            sorted_by(groups_view(out@), pair_leq()),
            groups_view(out@).to_multiset().add(groups_view(rest@).to_multiset()) == total,
        decreases rest@.len(),
    {
        let ghost rest0 = rest@;
        let x = rest.pop().unwrap();
        proof {
            assert(rest0.subrange(0, rest0.len() - 1) =~= rest0.drop_last());
            assert(rest0 =~= rest0.drop_last().push(rest0.last()));
            assert(groups_view(rest0) =~= groups_view(rest0.drop_last()).push(group_view(x)));
            assert(groups_view(rest@) =~= groups_view(rest0.drop_last()));
            vstd::seq_lib::to_multiset_build(groups_view(rest0.drop_last()), group_view(x));
            assert(groups_view(rest0).to_multiset() =~= groups_view(rest@).to_multiset().insert(
                group_view(x),
            ));
        }
        let pos = group_insert_position(&out, &x);
        let ghost out0 = out@;
        proof {
            lemma_sorted_insert_groups(groups_view(out0), pos as int, group_view(x));
        }
        out.insert(pos, x);
        proof {
            lemma_groups_view_insert(out0, pos as int, x);
            vstd::seq_lib::to_multiset_insert(groups_view(out0), pos as int, group_view(x));
            assert(groups_view(out@).to_multiset().add(groups_view(rest@).to_multiset()) =~= total);
        }
    }
    proof {
        assert(groups_view(rest@).len() == 0);
        assert(groups_view(rest@) =~= Seq::<(Seq<char>, Seq<Seq<char>>)>::empty());
        assert(groups_view(out@).to_multiset().add(groups_view(rest@).to_multiset())
            =~= groups_view(out@).to_multiset());
    }
    out
}

/// A grouping stands among the violations exactly when some member
/// package has that manifest path and those registry-sourced names.
pub proof fn lemma_violations_membership(pkgs: Seq<Package>, e: (Seq<char>, Seq<Seq<char>>))
    ensures
        violations_of(pkgs).contains(e) <==> exists|i: int|
            0 <= i < pkgs.len() && registry_names(#[trigger] pkgs[i]).len() > 0 && e
                == violation_pair(pkgs[i]),
    decreases pkgs.len(),
{
    let vpred = |p: Package| registry_names(p).len() > 0;
    let vf = |p: Package| violation_pair(p);
    if pkgs.len() == 0 {
        reveal(Seq::filter);
        assert(violations_of(pkgs).len() == 0);
    } else {
        let init = pkgs.drop_last();
        let last = pkgs.last();
        assert(pkgs =~= init.push(last));
        lemma_filter_push(init, last, vpred);
        lemma_map_push(init.filter(vpred), vf, last);
        lemma_violations_membership(init, e);
        if vpred(last) {
            assert(violations_of(pkgs) =~= violations_of(init).push(vf(last)));
            if violations_of(pkgs).contains(e) {
                let k = choose|k: int|
                    0 <= k < violations_of(pkgs).len() && violations_of(pkgs)[k] == e;
                if k < violations_of(init).len() {
                    assert(violations_of(init).contains(e));
                    let i = choose|i: int|
                        0 <= i < init.len() && registry_names(#[trigger] init[i]).len() > 0 && e
                            == violation_pair(init[i]);
                    assert(pkgs[i] == init[i]);
                } else {
                    assert(e == vf(last));
                    assert(pkgs[pkgs.len() - 1] == last);
                }
            }
            if exists|i: int|
                0 <= i < pkgs.len() && registry_names(#[trigger] pkgs[i]).len() > 0 && e
                    == violation_pair(pkgs[i]) {
                let i = choose|i: int|
                    0 <= i < pkgs.len() && registry_names(#[trigger] pkgs[i]).len() > 0 && e
                        == violation_pair(pkgs[i]);
                if i < pkgs.len() - 1 {
                    assert(init[i] == pkgs[i]);
                    assert(violations_of(init).contains(e));
                    let k = choose|k: int|
                        0 <= k < violations_of(init).len() && violations_of(init)[k] == e;
                    assert(violations_of(pkgs)[k] == e);
                } else {
                    assert(violations_of(pkgs)[violations_of(pkgs).len() - 1] == e);
                }
            }
        } else {
            assert(violations_of(pkgs) =~= violations_of(init));
            assert forall|i: int|
                0 <= i < pkgs.len() && registry_names(#[trigger] pkgs[i]).len() > 0 && e
                    == violation_pair(pkgs[i]) implies violations_of(pkgs).contains(e) by {
                assert(i < init.len());
                assert(init[i] == pkgs[i]);
                assert(violations_of(init).contains(e));
            }
            if violations_of(pkgs).contains(e) {
                assert(violations_of(init).contains(e));
                let i = choose|i: int|
                    0 <= i < init.len() && registry_names(#[trigger] init[i]).len() > 0 && e
                        == violation_pair(init[i]);
                assert(pkgs[i] == init[i]);
            }
        }
    }
}

/// With pairwise distinct member manifest paths, no two violation
/// groupings carry the same path.
pub proof fn lemma_violations_labels_distinct(pkgs: Seq<Package>)
    requires
        distinct_paths(pkgs),
    ensures
        distinct_labels(violations_of(pkgs)),
    decreases pkgs.len(),
{
    let vpred = |p: Package| registry_names(p).len() > 0;
    let vf = |p: Package| violation_pair(p);
    if pkgs.len() == 0 {
        reveal(Seq::filter);
        assert(violations_of(pkgs).len() == 0);
    } else {
        let init = pkgs.drop_last();
        let last = pkgs.last();
        assert(pkgs =~= init.push(last));
        lemma_filter_push(init, last, vpred);
        lemma_map_push(init.filter(vpred), vf, last);
        assert(distinct_paths(init)) by {
            assert forall|i: int, j: int| 0 <= i < j < init.len() implies (
            #[trigger] init[i].manifest_path@) != (#[trigger] init[j].manifest_path@) by {
                assert(init[i] == pkgs[i] && init[j] == pkgs[j]);
            }
        }
        lemma_violations_labels_distinct(init);
        let w = violations_of(init);
        if vpred(last) {
            assert(violations_of(pkgs) =~= w.push(vf(last)));
            assert forall|k: int| 0 <= k < w.len() implies (#[trigger] w[k]).0
                != last.manifest_path@ by {
                assert(w.contains(w[k]));
                lemma_violations_membership(init, w[k]);
                let i = choose|i: int|
                    0 <= i < init.len() && registry_names(#[trigger] init[i]).len() > 0 && w[k]
                        == violation_pair(init[i]);
                assert(init[i] == pkgs[i]);
                assert(last == pkgs[pkgs.len() - 1]);
                assert(pkgs[i].manifest_path@ != pkgs[pkgs.len() - 1].manifest_path@);
            }
            assert forall|i: int, j: int| 0 <= i < j < violations_of(pkgs).len() implies (
            #[trigger] violations_of(pkgs)[i]).0 != (#[trigger] violations_of(pkgs)[j]).0 by {
                if j < w.len() {
                    assert(violations_of(pkgs)[i] == w[i] && violations_of(pkgs)[j] == w[j]);
                } else {
                    assert(violations_of(pkgs)[i] == w[i]);
                    assert(violations_of(pkgs)[j] == vf(last));
                }
            }
        } else {
            assert(violations_of(pkgs) =~= w);
        }
    }
}

/// A sequence holding the same element at two positions counts it at
/// least twice.
pub proof fn lemma_dup_implies_count_ge_two<A>(s: Seq<A>, i: int, j: int)
    requires
        0 <= i < j < s.len(),
        s[i] == s[j],
    ensures
        s.to_multiset().count(s[i]) >= 2,
{
    broadcast use vstd::seq_lib::group_to_multiset_ensures;
    broadcast use vstd::multiset::group_multiset_axioms;

    let t = s.remove(i);
    assert(t[j - 1] == s[j]);
    assert(t.contains(s[i]));
    assert(t.to_multiset().count(s[i]) > 0);
    assert(t.to_multiset() == s.to_multiset().remove(s[i]));
}

/// An element counted at least twice stands at two positions.
pub proof fn lemma_count_ge_two_implies_dup<A>(s: Seq<A>, e: A)
    requires
        s.to_multiset().count(e) >= 2,
    ensures
        exists|i: int, j: int| 0 <= i < j < s.len() && #[trigger] s[i] == e && #[trigger] s[j] == e,
{
    broadcast use vstd::seq_lib::group_to_multiset_ensures;
    broadcast use vstd::multiset::group_multiset_axioms;

    assert(s.contains(e));
    let i = choose|i: int| 0 <= i < s.len() && s[i] == e;
    let t = s.remove(i);
    assert(t.to_multiset() == s.to_multiset().remove(s[i]));
    assert(t.to_multiset().count(e) >= 1);
    assert(t.contains(e));
    let k = choose|k: int| 0 <= k < t.len() && t[k] == e;
    if k < i {
        assert(s[k] == t[k]);
        assert(0 <= k < i < s.len() && s[k] == e && s[i] == e);
    } else {
        assert(s[k + 1] == t[k]);
        assert(0 <= i < k + 1 < s.len() && s[i] == e && s[k + 1] == e);
    }
}

/// A sequence holding, with multiplicity, the pairs of a sequence whose
/// paths are pairwise distinct has pairwise distinct paths itself.
pub proof fn lemma_multiset_distinct_labels(
    x: Seq<(Seq<char>, Seq<Seq<char>>)>,
    y: Seq<(Seq<char>, Seq<Seq<char>>)>,
)
    requires
        x.to_multiset() == y.to_multiset(),
        distinct_labels(y),
    ensures
        distinct_labels(x),
{
    broadcast use vstd::seq_lib::group_to_multiset_ensures;
    broadcast use vstd::multiset::group_multiset_axioms;

    assert forall|i: int, j: int| 0 <= i < j < x.len() implies (#[trigger] x[i]).0 != (
    #[trigger] x[j]).0 by {
        if x[i].0 == x[j].0 {
            if x[i] == x[j] {
                lemma_dup_implies_count_ge_two(x, i, j);
                lemma_count_ge_two_implies_dup(y, x[i]);
                let (k, m): (int, int) = choose|k: int, m: int|
                    0 <= k < m < y.len() && #[trigger] y[k] == x[i] && #[trigger] y[m] == x[i];
                assert(y[k].0 == y[m].0);
                assert(false);
            } else {
                assert(x.contains(x[i]));
                assert(x.contains(x[j]));
                assert(y.to_multiset().count(x[i]) > 0);
                assert(y.to_multiset().count(x[j]) > 0);
                assert(y.contains(x[i]));
                assert(y.contains(x[j]));
                let k = choose|k: int| 0 <= k < y.len() && y[k] == x[i];
                let m = choose|m: int| 0 <= m < y.len() && y[m] == x[j];
                assert(k != m);
                assert(y[k].0 == y[m].0);
                assert(false);
            }
        }
    }
}

/// The mandatory-workspace-dependency computation: one grouping per
/// member package that declares any registry-sourced dependency, holding
/// that package's offending names in first-seen order. Packages without
/// violations are omitted; the groupings are sorted by manifest path.
pub fn mandatory_violations(packages: &Vec<Package>) -> (v: Vec<ReportGroup>)
    requires
        distinct_paths(packages@),
    ensures
        sorted_by(groups_view(v@), pair_leq()),
        groups_view(v@).to_multiset() == violations_of(packages@).to_multiset(),
        distinct_labels(groups_view(v@)),
{
    let ghost vpred = |p: Package| registry_names(p).len() > 0;
    let ghost vf = |p: Package| violation_pair(p);
    let mut groups: Vec<ReportGroup> = Vec::new();
    let mut j: usize = 0;
    proof {
        reveal(Seq::filter);
        assert(packages@.subrange(0, 0) =~= Seq::<Package>::empty());
        assert(groups_view(groups@) =~= packages@.subrange(0, 0).filter(vpred).map_values(vf));
    }
    while j < packages.len()
        invariant
            j <= packages@.len(),
            vpred == (|p: Package| registry_names(p).len() > 0),
            vf == (|p: Package| violation_pair(p)),
            groups_view(groups@) == packages@.subrange(0, j as int).filter(vpred).map_values(vf),
        decreases packages@.len() - j,
    {
        let ghost prefix = packages@.subrange(0, j as int);
        proof {
            assert(packages@.subrange(0, j + 1) =~= prefix.push(packages@[j as int]));
            lemma_filter_push(prefix, packages@[j as int], vpred);
            lemma_map_push(prefix.filter(vpred), vf, packages@[j as int]);
        }
        let names = registry_dependency_names(&packages[j]);
        if names.len() > 0 {
            let ghost groups0 = groups@;
            groups.push(ReportGroup { label: packages[j].manifest_path.clone(), entries: names });
            proof {
                assert(group_view(groups@[groups0.len() as int]) == vf(packages@[j as int]));
                assert(groups_view(groups@) =~= groups_view(groups0).push(
                    vf(packages@[j as int]),
                ));
            }
        } else {
            proof {
                assert(registry_names(packages@[j as int]).len() == 0);
            }
        }
        j = j + 1;
    }
    proof {
        assert(packages@.subrange(0, packages@.len() as int) =~= packages@);
        assert(groups_view(groups@) == violations_of(packages@));
        lemma_violations_labels_distinct(packages@);
    }
    let v = sort_groups(groups);
    proof {
        lemma_multiset_distinct_labels(groups_view(v@), violations_of(packages@));
    }
    v
}

} // verus!
