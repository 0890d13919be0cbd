//! The failure kinds shared by every layer of the reader.

use vstd::prelude::*;

verus! {

/// Ways in which the bytes of a file fail to follow the container structure.
#[derive(Clone, Copy, Debug, PartialEq, Eq, Structural)]
pub enum FormatError {
    /// The file does not start with the container signature.
    BadSignature,
    /// A version, class or option outside the supported subset of the format.
    Unsupported,
    /// A structure whose signature, counts or sizes contradict each other.
    Malformed,
    /// The object at the end of a dataset path carries no dataset description.
    NotADataset,
    /// The record type does not have exactly four fields.
    FieldCount,
    /// A field of the record type is not four bytes wide.
    FieldWidth,
    /// The attribute exists but its type is not a string type.
    NotAString,
}

/// Failures found only while the stored records are unpacked.
#[derive(Clone, Copy, Debug, PartialEq, Eq, Structural)]
pub enum DecodeError {
    /// A chunk holds fewer bytes than the records it must contain.
    TruncatedChunk,
    /// The dataset declares a filter other than deflate.
    UnsupportedFilter,
    /// No chunk is stored for a record inside the dataset's extent.
    MissingChunk,
    /// A compressed chunk is not a valid zlib stream of the expected size.
    CorruptChunk,
}

/// The closed set of failures that any operation of this crate can report.
#[derive(Clone, Copy, Debug, PartialEq, Eq, Structural)]
pub enum Error {
    /// The storage ends before a structure that the file refers to.
    IoError,
    /// The bytes are present but do not conform to the container format.
    FormatError(FormatError),
    /// The container is well formed but lacks the requested path or attribute.
    NotFound,
    /// The records could not be unpacked.
    DecodeError(DecodeError),
    /// A field is declared with a type that cannot be read as a
    /// single-precision number.
    ParseError,
}

/// Result type used throughout this crate.
pub type Result<T> = std::result::Result<T, Error>;

/// A result seen through the view of what it holds on success.
pub open spec fn viewed<T: View>(r: std::result::Result<T, Error>) -> std::result::Result<
    T::V,
    Error,
> {
    match r {
        Ok(v) => Ok(v@),
        Err(e) => Err(e),
    }
}

/// An optional value seen through its view.
pub open spec fn viewed_option<T: View>(o: Option<T>) -> Option<T::V> {
    match o {
        Some(v) => Some(v@),
        None => None,
    }
}

impl Error {
    /// The text that describes this failure.
    pub open spec fn description_text(self) -> Seq<char> {
        match self {
            Error::IoError => "IO error: the file ends too early"@,
            Error::FormatError(_) => "format error: not a conforming container"@,
            Error::NotFound => "not found: the path or attribute is absent"@,
            Error::DecodeError(_) => "decode error: the records cannot be unpacked"@,
            Error::ParseError => "parse error: a field is not a single-precision number"@,
        }
    }

    /// Returns a short description of the failure kind.
    pub fn description(&self) -> (text: &'static str)
        ensures
            text@ == self.description_text(),
    {
        match self {
            Error::IoError => "IO error: the file ends too early",
            Error::FormatError(_) => "format error: not a conforming container",
            Error::NotFound => "not found: the path or attribute is absent",
            Error::DecodeError(_) => "decode error: the records cannot be unpacked",
            Error::ParseError => "parse error: a field is not a single-precision number",
        }
    }
}

} // verus!
