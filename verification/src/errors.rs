//! The error kinds that the pipeline can surface: malformed input, a cache
//! constraint violation, a failed network operation, or undecodable content.

use vstd::prelude::*;

verus! {

/// The required field whose absence (or whose malformed value) a
/// [`Error::ParseError`] reports.
#[derive(Clone, Copy, Debug, PartialEq, Eq, Structural)]
pub enum ParseField {
    /// `Package` in a package-index record.
    Package,
    /// `Version` in a package-index record.
    PackageVersion,
    /// `Filename` in a package-index record.
    Filename,
    /// `Source` in a buildinfo document.
    BuildinfoSource,
    /// `Version` in a buildinfo document.
    BuildinfoVersion,
    /// The compressed package index itself could not be decoded.
    CompressedIndex,
}

/// One tagged case per failure source of the pipeline.
#[derive(Clone, Copy, Debug, PartialEq, Eq, Structural)]
pub enum Error {
    /// A malformed index or buildinfo record; names the field at fault.
    ParseError(ParseField),
    /// A cache constraint violation, such as inserting a duplicate URL.
    StorageError,
    /// A non-2xx response or transport failure.
    NetworkError,
    /// Fetched buildinfo content that is not valid UTF-8.
    EncodingError,
}

impl Error {
    /// A human-readable description of the failure.
    pub fn message(&self) -> (r: &'static str)
        ensures
            self is ParseError ==> r@ == self->ParseError_0.message_spec(),
    {
        match self {
            Error::ParseError(field) => field.message(),
            Error::StorageError => "storage error in buildinfo cache",
            Error::NetworkError => "network request failed",
            Error::EncodingError => "buildinfo content is not valid UTF-8",
        }
    }
}

impl ParseField {
    /// The message that [`Error::message`] returns for this field.
    pub open spec fn message_spec(&self) -> Seq<char> {
        match self {
            ParseField::Package => "package is missing `Package` field"@,
            ParseField::PackageVersion => "package is missing `Version` field"@,
            ParseField::Filename => "package is missing `Filename` field"@,
            ParseField::BuildinfoSource => "missing `Source` field in buildinfo"@,
            ParseField::BuildinfoVersion => "missing `Version` field in buildinfo"@,
            ParseField::CompressedIndex => "package index is not a valid xz stream"@,
        }
    }

    /// Names the missing or malformed field.
    pub fn message(&self) -> (r: &'static str)
        ensures
            r@ == self.message_spec(),
    {
        match self {
            ParseField::Package => "package is missing `Package` field",
            ParseField::PackageVersion => "package is missing `Version` field",
            ParseField::Filename => "package is missing `Filename` field",
            ParseField::BuildinfoSource => "missing `Source` field in buildinfo",
            ParseField::BuildinfoVersion => "missing `Version` field in buildinfo",
            ParseField::CompressedIndex => "package index is not a valid xz stream",
        }
    }
}

} // verus!
