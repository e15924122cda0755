use vstd::prelude::*;

verus! {

/// The ways a diagram can be rejected while its model is built or laid out.
#[derive(Debug, Clone, PartialEq, Eq)]
pub enum DiagramError {
    /// A name, alias or label was registered twice.
    DuplicateIdentifier(String),
    /// A link names an endpoint that was never registered.
    UnknownReference(String),
    /// A node sequence that the layout cannot pair with its branches.
    StructuralViolation,
}

} // verus!
