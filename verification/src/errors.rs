use vstd::prelude::*;

verus! {

/// Errors surfaced by the registry core.
///
/// `DuplicateProject` is raised by the add workflow when a name or path
/// collision is detected before the store is touched. `NotFound` is raised
/// when an id or name lookup fails on a mutating operation. `PathInvalid`
/// marks a rejected candidate path, and `IoError` a persistence or git-probe
/// failure reported by a collaborator.
#[derive(Clone, Copy, Debug, PartialEq, Eq, Structural)]
pub enum PmError {
    DuplicateProject,
    NotFound,
    PathInvalid,
    IoError,
}

impl PmError {
    /// A short, fixed description for callers that print errors.
    pub fn describe(&self) -> (r: &'static str)
        ensures
            *self == PmError::DuplicateProject ==> r@ == "duplicate project"@,
            *self == PmError::NotFound ==> r@ == "not found"@,
            *self == PmError::PathInvalid ==> r@ == "invalid path"@,
            *self == PmError::IoError ==> r@ == "io error"@,
    {
        match self {
            PmError::DuplicateProject => "duplicate project",
            PmError::NotFound => "not found",
            PmError::PathInvalid => "invalid path",
            PmError::IoError => "io error",
        }
    }
}

} // verus!
