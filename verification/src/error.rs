//! Errors reported by the library.

use vstd::prelude::*;

verus! {

/// What is wrong with a prepared asset.
#[derive(Debug, Clone, Copy, PartialEq, Eq, Structural)]
pub enum AssetProblem {
    /// A read asset does not consist of the magic of its format followed by
    /// exactly `expected` pixel bytes.
    Malformed { expected: usize },
    /// Pixels handed in for writing number `got` bytes where the geometry
    /// calls for `expected`.
    WrongLength { got: usize, expected: usize },
    /// The asset holds pixels in another format than RGBA8.
    NotRgba8,
}

/// Errors of profile and bundle handling.
#[derive(Debug)]
pub enum Error {
    /// A profile or bundle of an unsupported version.
    Version(u32),
    /// A user name that cannot be used as a path component.
    User(String),
    /// A prepared asset that is not what its bundle entry describes.
    Asset { path: String, problem: AssetProblem },
}

} // verus!
