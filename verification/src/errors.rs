//! Errors of the generator core.
//!
//! Resolution errors abort before anything is produced; model-consistency
//! errors name the offending identifier. Payloads are arena indices so that
//! contracts can speak about them exactly.

use vstd::prelude::*;

verus! {

/// A fatal error of the generation pipeline.
#[derive(Debug, Clone, Copy, PartialEq, Eq, Structural)]
pub enum GenError {
    /// The named world does not exist in the root package.
    WorldNotFound,
    /// No world name was given and the root package does not own exactly
    /// one world to select by default.
    NoUniqueWorld,
    /// A type identifier points outside the type arena.
    UnknownType(usize),
    /// An interface import has no name.
    UnnamedInterface(usize),
    /// An anonymous-interface import (an interface without a package) is
    /// not supported.
    AnonymousInterfaceImport(usize),
    /// A package has WIT sources split across more than one sub-directory.
    SplitPackageSources(usize),
    /// A package has no source directory at all.
    NoPackageSources(usize),
    /// A skeleton file was missing or not valid for rewriting.
    BadSkeleton,
    /// A textual JavaScript module spec is not of the form `name=from`.
    InvalidModuleSpec,
    /// An imported interface has no owning package name to qualify it.
    MissingPackageName,
    /// The world already binds the import name a rewrite would add.
    ImportNameTaken,
}

/// The diagnostic line for each failure.
pub open spec fn spec_message(e: GenError) -> Seq<char> {
    match e {
        GenError::WorldNotFound => "the requested world does not exist in the root package"@,
        GenError::NoUniqueWorld => "no world name was given and none can be selected unambiguously"@,
        GenError::UnknownType(_) => "unknown type id"@,
        GenError::UnnamedInterface(_) => "interface import does not have a name"@,
        GenError::AnonymousInterfaceImport(_) => "anonymous interface imports are not supported"@,
        GenError::SplitPackageSources(_) => "package has multiple source directories"@,
        GenError::NoPackageSources(_) => "package has no source directories"@,
        GenError::BadSkeleton => "skeleton file is missing or cannot be rewritten"@,
        GenError::InvalidModuleSpec => "invalid JS module spec"@,
        GenError::MissingPackageName => "imported interface has no package name"@,
        GenError::ImportNameTaken => "the world already binds this import name"@,
    }
}

impl GenError {
    /// A human-readable, one-line description of the failure.
    pub fn message(&self) -> (r: String)
        ensures
            r@ == spec_message(*self),
    {
        match self {
            GenError::WorldNotFound => "the requested world does not exist in the root package"
                .to_owned(),
            GenError::NoUniqueWorld => "no world name was given and none can be selected unambiguously"
                .to_owned(),
            GenError::UnknownType(_) => "unknown type id".to_owned(),
            GenError::UnnamedInterface(_) => "interface import does not have a name".to_owned(),
            GenError::AnonymousInterfaceImport(_) => "anonymous interface imports are not supported"
                .to_owned(),
            GenError::SplitPackageSources(_) => "package has multiple source directories".to_owned(),
            GenError::NoPackageSources(_) => "package has no source directories".to_owned(),
            GenError::BadSkeleton => "skeleton file is missing or cannot be rewritten".to_owned(),
            GenError::InvalidModuleSpec => "invalid JS module spec".to_owned(),
            GenError::MissingPackageName => "imported interface has no package name".to_owned(),
            GenError::ImportNameTaken => "the world already binds this import name".to_owned(),
        }
    }
}

} // verus!
