//! The ways in which a listing or an extraction can fail.

use vstd::prelude::*;
use vstd::string::StringExecFns;

verus! {

/// Why a call could not produce its result. Every failure ends the call that
/// met it; nothing partial is returned beside one.
#[derive(Debug, PartialEq, Eq)]
pub enum ImageError {
    /// The path to list does not exist.
    NotFound,
    /// Reading failed on a path that exists; the text says how.
    Io(String),
    /// The bytes are no zip container that can be read; the text says why.
    ArchiveFormat(String),
    /// The archive is sound but holds no entry of the requested name.
    EntryNotFound,
}

impl ImageError {
    /// The text that describes this failure to a host that only shows text.
    pub open spec fn text(self) -> Seq<char> {
        match self {
            ImageError::NotFound => "Directory not found"@,
            ImageError::Io(detail) => detail@,
            ImageError::ArchiveFormat(detail) => detail@,
            ImageError::EntryNotFound => "specified file not found in archive"@,
        }
    }

    /// Describes this failure as text: a fixed sentence for the two kinds
    /// that carry no detail, the detail itself for the two that do.
    pub fn message(&self) -> (r: String)
        ensures
            r@ == self.text(),
    {
        match self {
            ImageError::NotFound => String::from_str("Directory not found"),
            ImageError::Io(detail) => detail.clone(),
            ImageError::ArchiveFormat(detail) => detail.clone(),
            ImageError::EntryNotFound => String::from_str("specified file not found in archive"),
        }
    }
}

} // verus!
