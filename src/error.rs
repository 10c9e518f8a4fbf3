use vstd::prelude::*;

verus! {

/// A failure that stops a whole run.
#[derive(Debug, Clone, PartialEq, Eq)]
pub enum ContextError {
    /// A glob pattern could not be compiled.
    BadPattern(String),
    /// The compiled set of glob patterns could not be assembled.
    PatternSet,
    /// A directory that the walk had to enter could not be listed.
    Listing(String),
    /// The drawn tree is not valid text.
    TreeText,
}

} // verus!
