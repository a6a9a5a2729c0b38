//! Kinds of dependencies.

use vstd::prelude::*;

verus! {

/// Different types a dependency can be.
#[derive(Clone, Copy, Debug, PartialEq, Eq, Hash, Structural)]
#[non_exhaustive]
pub enum DependencyType {
    /// The dependency is a blueprint
    Blueprint,
    /// The dependency is a reaction
    Reaction,
    /// The dependency is a material
    Material,
    /// The type is not yet set
    Unknown,
}

impl Default for DependencyType {
    fn default() -> (r: Self)
        ensures
            r == DependencyType::Unknown,
    {
        DependencyType::Unknown
    }
}

} // verus!
