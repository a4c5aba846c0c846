//! The workspace dependency extractor: the set of dependency names
//! declared under the workspace-level dependency table of the root
//! manifest.

use crate::model::{AuditError, RootManifest};
use crate::order::names_view;
use vstd::prelude::*;

verus! {

/// The names declared under the workspace-level dependency table: empty
/// when the workspace declares no shared dependencies.
pub open spec fn workspace_declared(root: RootManifest) -> Seq<Seq<char>> {
    match root {
        RootManifest::Virtual { workspace_deps: Some(ds) } => names_view(ds@),
        RootManifest::Virtual { workspace_deps: None } => Seq::empty(),
        RootManifest::Real => Seq::empty(),
    }
}

/// An exact copy of a list of names.
fn copy_names(ds: &Vec<String>) -> (r: Vec<String>)
    ensures
        r@ == ds@,
{
    let mut r: Vec<String> = Vec::new();
    let mut i: usize = 0;
    while i < ds.len()
        invariant
            i <= ds@.len(),
            r@ =~= ds@.subrange(0, i as int),
        decreases ds@.len() - i,
    {
        r.push(ds[i].clone());
        i = i + 1;
    }
    proof {
        assert(r@ =~= ds@);
    }
    r
}

/// Pulls the declared dependency names out of the root manifest.
///
/// A root manifest that describes a real package of its own is a fatal
/// configuration error: no partial scan is attempted. A virtual manifest
/// whose workspace table has no dependency sub-table yields the empty
/// set, which is not an error.
pub fn workspace_dependency_set(root: &RootManifest) -> (r: Result<Vec<String>, AuditError>)
    ensures
        match r {
            Ok(names) => *root is Virtual && names_view(names@) == workspace_declared(*root),
            Err(e) => *root is Real && e is ConfigurationError,
        },
{
    match root {
        RootManifest::Real => Err(AuditError::ConfigurationError),
        RootManifest::Virtual { workspace_deps } => match workspace_deps {
            None => {
                let names: Vec<String> = Vec::new();
                proof {
                    assert(names_view(names@) =~= workspace_declared(*root));
                }
                Ok(names)
            },
            Some(ds) => {
                let names = copy_names(ds);
                proof {
                    assert(names_view(names@) =~= workspace_declared(*root));
                }
                Ok(names)
            },
        },
    }
}

} // verus!
