//! The in-memory manifest model: member packages, their dependency
//! entries with a source classification, the root manifest, and the error
//! taxonomy of an audit.

use vstd::prelude::*;

verus! {

/// Where a member package's dependency entry comes from.
#[derive(Clone, Copy, PartialEq, Eq, Debug, Structural)]
pub enum DepSource {
    /// Inherited from the workspace-level dependency table.
    WorkspaceInherited,
    /// Taken directly from a package registry.
    Registry,
    /// A local filesystem path.
    Path,
    /// A version-control reference.
    Git,
    /// No recognised source attribute.
    Other,
}

/// One dependency entry of a member package: the name under which the
/// package refers to it, and the classified source.
#[derive(Clone, Debug)]
pub struct Dependency {
    pub name: String,
    pub source: DepSource,
}

/// A member package: its name (unique within the workspace), the path of
/// its manifest, and its declared dependencies in manifest order.
#[derive(Clone, Debug)]
pub struct Package {
    pub name: String,
    pub manifest_path: String,
    pub deps: Vec<Dependency>,
}

/// A root manifest as the manifest reader hands it over: either the
/// virtual form carrying the workspace's shared dependency table (`None`
/// when the workspace declares no shared dependencies), or a manifest
/// that describes a real package of its own.
pub enum RootManifest {
    /// A workspace-only manifest, the valid input of an audit.
    Virtual { workspace_deps: Option<Vec<String>> },
    /// A manifest with a package section of its own.
    Real,
}

/// The ways an audit can fail. None of them is recoverable: any failure
/// invalidates the completeness the reconciliation depends on.
#[derive(Clone, Copy, PartialEq, Eq, Debug, Structural)]
pub enum AuditError {
    /// The root manifest does not describe a workspace.
    ConfigurationError,
    /// A manifest could not be read or parsed.
    ManifestError,
    /// A path could not be resolved or rendered as text.
    PathResolutionError,
}

/// The names of the dependencies that a package declares, in manifest
/// order.
pub open spec fn dep_names(p: Package) -> Seq<Seq<char>> {
    p.deps@.map_values(|d: Dependency| d.name@)
}

/// Whether `p` declares a dependency called `name`, under any source.
pub open spec fn references(p: Package, name: Seq<char>) -> bool {
    dep_names(p).contains(name)
}

/// Whether any of the packages declares a dependency called `name`.
pub open spec fn referenced(pkgs: Seq<Package>, name: Seq<char>) -> bool {
    exists|i: int| 0 <= i < pkgs.len() && references(#[trigger] pkgs[i], name)
}

/// The names of `p`'s registry-sourced dependencies, in declaration
/// order.
pub open spec fn registry_names(p: Package) -> Seq<Seq<char>> {
    p.deps@.filter(|d: Dependency| d.source is Registry).map_values(|d: Dependency| d.name@)
}

/// Every member package has a manifest path of its own.
pub open spec fn distinct_paths(pkgs: Seq<Package>) -> bool {
    forall|i: int, j: int|
        0 <= i < j < pkgs.len() ==> (#[trigger] pkgs[i].manifest_path@) != (
        #[trigger] pkgs[j].manifest_path@)
}

} // verus!
