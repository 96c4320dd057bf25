use vstd::prelude::*;

verus! {

/// The error kinds that the manager's operations can surface.
///
/// Transport and filesystem failures are reported by the surrounding
/// application code with their own context; the library itself only decides,
/// so its errors are exactly the rule violations below.
#[derive(Clone, Copy, Debug, PartialEq, Eq, Structural)]
pub enum Error {
    /// A toolchain name or version string is malformed.
    ParseError,
    /// A toolchain is not installed, no project was found, or no toolchain
    /// is available at all.
    NotFound,
    /// Offline mode is set and no package path was supplied.
    OfflineRequiresPackage,
    /// An offline package's version conflicts with the pinned target.
    PackageMismatch,
    /// No archive mapping exists for the running target.
    UnsupportedPlatform,
    /// A configuration key outside the recognized set.
    UnknownConfigKey,
    /// A local build was requested outside a tool source checkout.
    NotAToolRepository,
}

impl Error {
    /// A short, fixed description of the error.
    pub fn message(&self) -> (r: &'static str)
        ensures
            self is ParseError ==> r@ == "unknown toolchain or version"@,
            self is NotFound ==> r@ == "toolchain is not found"@,
            self is OfflineRequiresPackage ==> r@ == "a package is required in offline mode"@,
            self is PackageMismatch ==> r@ == "unexpected package version"@,
            self is UnsupportedPlatform ==> r@ == "unknown target"@,
            self is UnknownConfigKey ==> r@ == "unknown configuration key"@,
            self is NotAToolRepository ==> r@ == "this is not a tool repository"@,
    {
        match self {
            Error::ParseError => "unknown toolchain or version",
            Error::NotFound => "toolchain is not found",
            Error::OfflineRequiresPackage => "a package is required in offline mode",
            Error::PackageMismatch => "unexpected package version",
            Error::UnsupportedPlatform => "unknown target",
            Error::UnknownConfigKey => "unknown configuration key",
            Error::NotAToolRepository => "this is not a tool repository",
        }
    }
}

} // verus!
