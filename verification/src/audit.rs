//! The audit pipeline: extraction, reconciliation and the mapping of an
//! outcome to a process exit code.

use crate::extract::{workspace_declared, workspace_dependency_set};
use crate::model::{distinct_paths, AuditError, Package, RootManifest};
use crate::order::{lex_leq, names_view};
use crate::reconcile::{
    distinct_labels, mandatory_violations, pair_leq, unused_of, unused_workspace_dependencies,
    violations_of,
};
use crate::report::{groups_view, ReportGroup};
use vstd::prelude::*;
use vstd::relations::sorted_by;

verus! {

/// What one audit finds: the unused workspace-declared names, sorted
/// lexicographically, and the violation groupings, sorted by manifest
/// path; the latter are empty unless the mandatory policy is active.
pub struct AuditOutcome {
    pub unused: Vec<String>,
    pub violations: Vec<ReportGroup>,
}

/// The violations that the audit owes for the given members: those of
/// the members under the mandatory policy, none otherwise.
pub open spec fn owed_violations(pkgs: Seq<Package>, mandatory: bool) -> Seq<
    (Seq<char>, Seq<Seq<char>>),
> {
    if mandatory {
        violations_of(pkgs)
    } else {
        Seq::empty()
    }
}

/// A correct outcome for the given manifests and policy flag.
pub open spec fn outcome_valid(
    o: AuditOutcome,
    root: RootManifest,
    pkgs: Seq<Package>,
    mandatory: bool,
) -> bool {
    &&& sorted_by(names_view(o.unused@), lex_leq())
    &&& names_view(o.unused@).to_multiset() == unused_of(
        workspace_declared(root),
        pkgs,
    ).to_multiset()
    &&& sorted_by(groups_view(o.violations@), pair_leq())
    &&& groups_view(o.violations@).to_multiset() == owed_violations(pkgs, mandatory).to_multiset()
    &&& distinct_labels(groups_view(o.violations@))
}

/// Runs the reconciliation over the root manifest and the member
/// packages. A root manifest describing a real package is refused with a
/// configuration error; otherwise the unused set is always computed, and
/// the violations exactly when the mandatory policy is active.
pub fn audit(root: &RootManifest, packages: &Vec<Package>, mandatory: bool) -> (r: Result<
    AuditOutcome,
    AuditError,
>)
    requires
        distinct_paths(packages@),
    ensures
        match r {
            Ok(o) => *root is Virtual && outcome_valid(o, *root, packages@, mandatory),
            Err(e) => *root is Real && e is ConfigurationError,
        },
{
    let ws = match workspace_dependency_set(root) {
        Ok(ws) => ws,
        Err(e) => {
            return Err(e);
        },
    };
    let unused = unused_workspace_dependencies(&ws, packages);
    let violations = if mandatory {
        mandatory_violations(packages)
    } else {
        Vec::new()
    };
    proof {
        if !mandatory {
            assert(groups_view(violations@) =~= Seq::<(Seq<char>, Seq<Seq<char>>)>::empty());
            assert(groups_view(violations@).to_multiset() =~= owed_violations(
                packages@,
                mandatory,
            ).to_multiset());
        }
    }
    Ok(AuditOutcome { unused, violations })
}

/// Whether an outcome holds any finding: at least one unused name or at
/// least one violation grouping.
pub fn has_findings(o: &AuditOutcome) -> (b: bool)
    ensures
        b == (o.unused@.len() > 0 || o.violations@.len() > 0),
{
    o.unused.len() > 0 || o.violations.len() > 0
}

/// The process exit code of the tool: 0 when the run succeeded without
/// findings, 1 when it succeeded with at least one finding, 2 on any
/// error.
pub fn exit_code(result: &Result<bool, AuditError>) -> (c: u8)
    ensures
        c == (match result {
            Ok(false) => 0u8,
            Ok(true) => 1u8,
            Err(_) => 2u8,
        }),
{
    match result {
        Ok(false) => 0,
        Ok(true) => 1,
        Err(_) => 2,
    }
}

} // verus!
