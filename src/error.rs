//! Errors of the schematic runtime and of fetching components.
use vstd::prelude::*;

use crate::definition::PortReference;

verus! {

/// Errors of a schematic at run time.
#[derive(Debug, Clone, PartialEq, Eq)]
pub enum SchematicError {
    ModelNotInitialized,
    UpstreamNotFound(PortReference),
    TransactionNotFound(u128),
    ReferenceNotFound(String),
    SchematicClosedEarly(String),
}

/// Errors of fetching a component from an OCI registry.
#[derive(Debug, Clone, PartialEq, Eq)]
pub enum OciError {
    /// The configuration does not allow fetching the `:latest` tag.
    LatestDisallowed(String),
    /// A reference, and why it could not be fetched.
    OciFetchFailure(String, String),
    /// A reference, and why it could not be parsed.
    OCIParseError(String, String),
}

} // verus!
