//! The member dependency scanner: classifies each dependency entry of a
//! member manifest by its source and assembles the package model.

use crate::model::{DepSource, Dependency, Package};
use vstd::prelude::*;

verus! {

/// The explicit source attribute of a dependency entry, when the entry
/// carries one.
#[derive(Clone, Copy, PartialEq, Eq, Debug, Structural)]
pub enum RawSource {
    /// A registry reference.
    Registry,
    /// A local filesystem path.
    Path,
    /// A version-control reference.
    Git,
}

/// A dependency entry as it stands in a member manifest, before
/// classification: the declared name, whether the entry is marked as
/// inheriting from the workspace dependency table, and its explicit
/// source attribute, when one is present.
pub struct RawDependency {
    pub name: String,
    pub workspace_inherited: bool,
    pub source: Option<RawSource>,
}

/// The classification rule: an entry marked as inheriting from the
/// workspace is workspace-inherited, whatever else it carries; otherwise
/// its explicit source attribute decides.
pub open spec fn classify_spec(workspace_inherited: bool, source: Option<RawSource>) -> DepSource {
    if workspace_inherited {
        DepSource::WorkspaceInherited
    } else {
        match source {
            Some(RawSource::Registry) => DepSource::Registry,
            Some(RawSource::Path) => DepSource::Path,
            Some(RawSource::Git) => DepSource::Git,
            None => DepSource::Other,
        }
    }
}

/// Classifies one dependency entry's source.
pub fn classify(workspace_inherited: bool, source: &Option<RawSource>) -> (s: DepSource)
    ensures
        s == classify_spec(workspace_inherited, *source),
{
    if workspace_inherited {
        DepSource::WorkspaceInherited
    } else {
        match source {
            Some(RawSource::Registry) => DepSource::Registry,
            Some(RawSource::Path) => DepSource::Path,
            Some(RawSource::Git) => DepSource::Git,
            None => DepSource::Other,
        }
    }
}

/// Builds the model of one member package from its manifest entries: the
/// dependency list keeps the manifest's names and order, and every entry
/// is classified by the rule above.
pub fn scan_package(name: String, manifest_path: String, entries: &Vec<RawDependency>) -> (p:
    Package)
    ensures
        p.name == name,
        p.manifest_path == manifest_path,
        p.deps@.len() == entries@.len(),
        forall|i: int|
            0 <= i < entries@.len() ==> (#[trigger] p.deps@[i]).name@ == entries@[i].name@
                && p.deps@[i].source == classify_spec(
                entries@[i].workspace_inherited,
                entries@[i].source,
            ),
{
    let mut deps: Vec<Dependency> = Vec::new();
    let mut i: usize = 0;
    while i < entries.len()
        invariant
            i <= entries@.len(),
            deps@.len() == i,
            forall|k: int|
                0 <= k < i ==> (#[trigger] deps@[k]).name@ == entries@[k].name@
                    && deps@[k].source == classify_spec(
                    entries@[k].workspace_inherited,
                    entries@[k].source,
                ),
        decreases entries@.len() - i,
    {
        let source = classify(entries[i].workspace_inherited, &entries[i].source);
        deps.push(Dependency { name: entries[i].name.clone(), source });
        i = i + 1;
    }
    Package { name, manifest_path, deps }
}

} // verus!
