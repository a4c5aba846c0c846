use cargo_neat::audit::{audit, exit_code, has_findings};
use cargo_neat::extract::workspace_dependency_set;
use cargo_neat::model::{AuditError, DepSource, Dependency, Package, RootManifest};
use cargo_neat::reconcile::{
    any_references, mandatory_violations, package_references, paths_distinct,
    registry_dependency_names, unused_workspace_dependencies,
};
use cargo_neat::scan::{classify, scan_package, RawDependency, RawSource};

fn dep(name: &str, source: DepSource) -> Dependency {
    Dependency { name: name.to_string(), source }
}

fn pkg(name: &str, path: &str, deps: Vec<Dependency>) -> Package {
    Package { name: name.to_string(), manifest_path: path.to_string(), deps }
}

fn virtual_root(names: &[&str]) -> RootManifest {
    RootManifest::Virtual {
        workspace_deps: Some(names.iter().map(|n| n.to_string()).collect()),
    }
}

#[test]
fn unused_single_declared_name_left_over() {
    // Workspace declares {serde, tokio, rand}; member A uses serde and
    // tokio, member B uses serde: rand is unused and the exit code is 1.
    let root = virtual_root(&["serde", "tokio", "rand"]);
    let members = vec![
        pkg(
            "a",
            "ws/a/Cargo.toml",
            vec![
                dep("serde", DepSource::WorkspaceInherited),
                dep("tokio", DepSource::WorkspaceInherited),
            ],
        ),
        pkg("b", "ws/b/Cargo.toml", vec![dep("serde", DepSource::WorkspaceInherited)]),
    ];
    assert!(paths_distinct(&members));
    let outcome = audit(&root, &members, false).unwrap();
    assert_eq!(outcome.unused, vec!["rand".to_string()]);
    assert!(outcome.violations.is_empty());
    let found = has_findings(&outcome);
    assert!(found);
    assert_eq!(exit_code(&Ok(found)), 1);
}

#[test]
fn registry_use_counts_as_used_and_violates_policy() {
    // Member B also uses rand, registry-sourced: the unused set is empty
    // (any reference counts), but under the mandatory policy B gets a
    // violation entry [rand] and the exit code is 1.
    let root = virtual_root(&["serde", "tokio", "rand"]);
    let members = vec![
        pkg(
            "a",
            "ws/a/Cargo.toml",
            vec![
                dep("serde", DepSource::WorkspaceInherited),
                dep("tokio", DepSource::WorkspaceInherited),
            ],
        ),
        pkg(
            "b",
            "ws/b/Cargo.toml",
            vec![dep("serde", DepSource::WorkspaceInherited), dep("rand", DepSource::Registry)],
        ),
    ];
    let plain = audit(&root, &members, false).unwrap();
    assert!(plain.unused.is_empty());
    assert!(plain.violations.is_empty());
    let found = has_findings(&plain);
    assert!(!found);
    assert_eq!(exit_code(&Ok(found)), 0);

    let strict = audit(&root, &members, true).unwrap();
    assert!(strict.unused.is_empty());
    assert_eq!(strict.violations.len(), 1);
    assert_eq!(strict.violations[0].label, "ws/b/Cargo.toml");
    assert_eq!(strict.violations[0].entries, vec!["rand".to_string()]);
    let found = has_findings(&strict);
    assert!(found);
    assert_eq!(exit_code(&Ok(found)), 1);
}

#[test]
fn workspace_without_shared_dependencies_is_clean() {
    // A workspace with no shared dependency table yields an empty unused
    // set, whatever the members declare, and exit code 0.
    let root = RootManifest::Virtual { workspace_deps: None };
    let members = vec![pkg(
        "a",
        "ws/a/Cargo.toml",
        vec![dep("serde", DepSource::Registry), dep("local", DepSource::Path)],
    )];
    let outcome = audit(&root, &members, false).unwrap();
    assert!(outcome.unused.is_empty());
    assert!(!has_findings(&outcome));
    assert_eq!(exit_code(&Ok(false)), 0);
}

#[test]
fn real_root_manifest_is_a_configuration_error() {
    // A root manifest with a package section of its own never yields a
    // silent empty report: the audit fails with a configuration error
    // and the exit code is 2.
    let root = RootManifest::Real;
    let members: Vec<Package> = vec![];
    let result = audit(&root, &members, false);
    let err = result.err().unwrap();
    assert_eq!(err, AuditError::ConfigurationError);
    assert_eq!(exit_code(&Err(err)), 2);
}

#[test]
fn extractor_rejects_real_and_accepts_virtual() {
    assert_eq!(
        workspace_dependency_set(&RootManifest::Real).err().unwrap(),
        AuditError::ConfigurationError
    );
    let none = workspace_dependency_set(&RootManifest::Virtual { workspace_deps: None }).unwrap();
    assert!(none.is_empty());
    let some = workspace_dependency_set(&virtual_root(&["serde", "rand"])).unwrap();
    assert_eq!(some, vec!["serde".to_string(), "rand".to_string()]);
}

#[test]
fn similarly_named_dependencies_do_not_count() {
    // rand is declared and only near-misses are referenced: rand shows
    // up in the unused set exactly once.
    let ws = vec!["rand".to_string()];
    let members = vec![
        pkg("a", "ws/a/Cargo.toml", vec![dep("rando", DepSource::Registry)]),
        pkg("b", "ws/b/Cargo.toml", vec![dep("ran", DepSource::WorkspaceInherited)]),
    ];
    let unused = unused_workspace_dependencies(&ws, &members);
    assert_eq!(unused, vec!["rand".to_string()]);
}

#[test]
fn any_source_kind_counts_as_used() {
    // A workspace-declared name referenced under any classification, even
    // path-, git- or otherwise-sourced, is not unused.
    let ws = vec![
        "a".to_string(),
        "b".to_string(),
        "c".to_string(),
        "d".to_string(),
    ];
    let members = vec![pkg(
        "m",
        "ws/m/Cargo.toml",
        vec![
            dep("a", DepSource::Path),
            dep("b", DepSource::Git),
            dep("c", DepSource::Other),
        ],
    )];
    let unused = unused_workspace_dependencies(&ws, &members);
    assert_eq!(unused, vec!["d".to_string()]);
}

#[test]
fn unused_names_come_out_sorted() {
    let ws = vec!["zeta".to_string(), "alpha".to_string(), "middle".to_string()];
    let members: Vec<Package> = vec![];
    let unused = unused_workspace_dependencies(&ws, &members);
    assert_eq!(
        unused,
        vec!["alpha".to_string(), "middle".to_string(), "zeta".to_string()]
    );
}

#[test]
fn violations_group_by_package_sorted_by_path() {
    // Violations keep first-seen order inside a package and the
    // groupings are sorted by manifest path; members without violations
    // are omitted.
    let members = vec![
        pkg(
            "late",
            "ws/late/Cargo.toml",
            vec![dep("zz", DepSource::Registry), dep("aa", DepSource::Registry)],
        ),
        pkg("clean", "ws/clean/Cargo.toml", vec![dep("serde", DepSource::WorkspaceInherited)]),
        pkg("early", "ws/early/Cargo.toml", vec![dep("mm", DepSource::Registry)]),
    ];
    let groups = mandatory_violations(&members);
    assert_eq!(groups.len(), 2);
    assert_eq!(groups[0].label, "ws/early/Cargo.toml");
    assert_eq!(groups[0].entries, vec!["mm".to_string()]);
    assert_eq!(groups[1].label, "ws/late/Cargo.toml");
    assert_eq!(groups[1].entries, vec!["zz".to_string(), "aa".to_string()]);
}

#[test]
fn path_and_git_sources_are_not_violations() {
    let members = vec![pkg(
        "a",
        "ws/a/Cargo.toml",
        vec![
            dep("p", DepSource::Path),
            dep("g", DepSource::Git),
            dep("o", DepSource::Other),
            dep("w", DepSource::WorkspaceInherited),
        ],
    )];
    let groups = mandatory_violations(&members);
    assert!(groups.is_empty());
    let names = registry_dependency_names(&members[0]);
    assert!(names.is_empty());
}

#[test]
fn computation_is_idempotent() {
    // The same manifests audited twice give identical output.
    let root = virtual_root(&["serde", "rand", "tokio"]);
    let members = vec![
        pkg("a", "ws/a/Cargo.toml", vec![dep("serde", DepSource::Registry)]),
        pkg("b", "ws/b/Cargo.toml", vec![dep("tokio", DepSource::WorkspaceInherited)]),
    ];
    let first = audit(&root, &members, true).unwrap();
    let second = audit(&root, &members, true).unwrap();
    assert_eq!(first.unused, second.unused);
    assert_eq!(first.violations.len(), second.violations.len());
    for (g1, g2) in first.violations.iter().zip(second.violations.iter()) {
        assert_eq!(g1.label, g2.label);
        assert_eq!(g1.entries, g2.entries);
    }
}

#[test]
fn member_order_does_not_change_the_result() {
    // Permuting the member packages changes neither the unused set nor
    // the violation groupings.
    let root = virtual_root(&["serde", "rand", "tokio"]);
    let members = vec![
        pkg("a", "ws/a/Cargo.toml", vec![dep("serde", DepSource::Registry)]),
        pkg("b", "ws/b/Cargo.toml", vec![dep("tokio", DepSource::WorkspaceInherited)]),
        pkg("c", "ws/c/Cargo.toml", vec![dep("extra", DepSource::Registry)]),
    ];
    let reversed: Vec<Package> = members.iter().rev().map(|p| {
        pkg(&p.name, &p.manifest_path, p.deps.clone())
    }).collect();
    let straight = audit(&root, &members, true).unwrap();
    let permuted = audit(&root, &reversed, true).unwrap();
    assert_eq!(straight.unused, permuted.unused);
    assert_eq!(straight.violations.len(), permuted.violations.len());
    for (g1, g2) in straight.violations.iter().zip(permuted.violations.iter()) {
        assert_eq!(g1.label, g2.label);
        assert_eq!(g1.entries, g2.entries);
    }
}

#[test]
fn classification_follows_the_manifest_marks() {
    assert_eq!(classify(true, &Some(RawSource::Registry)), DepSource::WorkspaceInherited);
    assert_eq!(classify(true, &None), DepSource::WorkspaceInherited);
    assert_eq!(classify(false, &Some(RawSource::Registry)), DepSource::Registry);
    assert_eq!(classify(false, &Some(RawSource::Path)), DepSource::Path);
    assert_eq!(classify(false, &Some(RawSource::Git)), DepSource::Git);
    assert_eq!(classify(false, &None), DepSource::Other);
}

#[test]
fn scanner_keeps_names_and_order() {
    let entries = vec![
        RawDependency {
            name: "serde".to_string(),
            workspace_inherited: true,
            source: Some(RawSource::Registry),
        },
        RawDependency {
            name: "rand".to_string(),
            workspace_inherited: false,
            source: Some(RawSource::Registry),
        },
        RawDependency { name: "local".to_string(), workspace_inherited: false, source: None },
    ];
    let p = scan_package("member".to_string(), "ws/member/Cargo.toml".to_string(), &entries);
    assert_eq!(p.name, "member");
    assert_eq!(p.manifest_path, "ws/member/Cargo.toml");
    assert_eq!(p.deps.len(), 3);
    assert_eq!(p.deps[0].name, "serde");
    assert_eq!(p.deps[0].source, DepSource::WorkspaceInherited);
    assert_eq!(p.deps[1].name, "rand");
    assert_eq!(p.deps[1].source, DepSource::Registry);
    assert_eq!(p.deps[2].name, "local");
    assert_eq!(p.deps[2].source, DepSource::Other);
}

#[test]
fn reference_lookups_see_every_source_kind() {
    let p = pkg(
        "a",
        "ws/a/Cargo.toml",
        vec![dep("serde", DepSource::Path), dep("tokio", DepSource::WorkspaceInherited)],
    );
    assert!(package_references(&p, &"serde".to_string()));
    assert!(package_references(&p, &"tokio".to_string()));
    assert!(!package_references(&p, &"rand".to_string()));
    let members = vec![p];
    assert!(any_references(&members, &"serde".to_string()));
    assert!(!any_references(&members, &"rand".to_string()));
}

#[test]
fn duplicate_manifest_paths_are_detected() {
    let members = vec![
        pkg("a", "ws/a/Cargo.toml", vec![]),
        pkg("b", "ws/a/Cargo.toml", vec![]),
    ];
    assert!(!paths_distinct(&members));
    let ok = vec![pkg("a", "ws/a/Cargo.toml", vec![]), pkg("b", "ws/b/Cargo.toml", vec![])];
    assert!(paths_distinct(&ok));
}

#[test]
fn empty_workspace_with_no_members() {
    let root = virtual_root(&[]);
    let members: Vec<Package> = vec![];
    let outcome = audit(&root, &members, true).unwrap();
    assert!(outcome.unused.is_empty());
    assert!(outcome.violations.is_empty());
    assert!(!has_findings(&outcome));
}

#[test]
fn exit_codes_cover_all_outcomes() {
    assert_eq!(exit_code(&Ok(false)), 0);
    assert_eq!(exit_code(&Ok(true)), 1);
    assert_eq!(exit_code(&Err(AuditError::ConfigurationError)), 2);
    assert_eq!(exit_code(&Err(AuditError::ManifestError)), 2);
    assert_eq!(exit_code(&Err(AuditError::PathResolutionError)), 2);
}
