//! Types exchanged with components and triggers.
use vstd::prelude::*;

verus! {

/// Which standard streams of the host are terminals.
#[derive(Debug, Clone, PartialEq, Eq)]
pub struct Interactive {
    pub stdin: bool,
    pub stdout: bool,
    pub stderr: bool,
}

/// The component that implements a command-line interface.
#[derive(Debug, Default, Clone)]
pub struct Component;

/// A request, carried in a component's context, to invoke an operation of another component.
#[derive(Debug, Clone, PartialEq, Eq)]
pub struct InvocationRequest {
    /// The id of the component to invoke.
    pub reference: String,
    pub operation: String,
}

} // verus!
