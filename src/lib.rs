// Locating the compiled dependencies of a project in its build cache, so
// that a code snippet can be compiled against them:
// - `locked`: the locked dependencies, from the project's metadata;
// - `fingerprint`: paths, and the artifact a fingerprint file points at;
// - `resolve`: choosing one artifact per locked dependency;
// - `edition`: the edition to compile the snippet under;
// - `command`: the compiler's arguments;
// - `text`: character-level helpers.
use vstd::prelude::*;

pub mod text;
pub mod locked;
pub mod fingerprint;
pub mod resolve;
pub mod edition;
pub mod command;

verus! {

/// Failures that the resolution pipeline reports to its caller.
#[derive(Debug, Clone, Copy, PartialEq, Eq, Structural)]
pub enum SkepticError {
    /// Manifest or lock data is unavailable or malformed.
    Metadata,
    /// A single candidate artifact could not be derived or located.
    Fingerprint,
    /// The language edition could not be determined.
    Edition,
}

} // verus!
