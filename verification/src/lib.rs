//! Audit of a multi-package workspace: find dependency names that are
//! declared in the workspace-level dependency table but never referenced by
//! any member package, and, under an optional policy, member dependencies
//! that are taken straight from a registry instead of being inherited from
//! the workspace.
//!
//! The crate holds the in-memory manifest model, the workspace dependency
//! extractor, the member dependency scanner, the reconciliation engine and
//! the report model. Reading manifests from disk and driving the process is
//! left to the surrounding program.

pub mod audit;
pub mod extract;
pub mod laws;
pub mod model;
pub mod order;
pub mod reconcile;
pub mod report;
pub mod scan;
