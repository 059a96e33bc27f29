//! The ways in which merging a directory ends without a composite.

use vstd::prelude::*;
use vstd::string::*;

verus! {

/// Why a merge ended without a composite.
#[derive(Debug, Clone, Copy, PartialEq, Eq, Structural)]
pub enum MergeError {
    /// No file was given.
    EmptyInput,
    /// One file was given: there is nothing to merge it with.
    SingleImage,
    /// None of the files could be decoded.
    NoValidImages,
    /// None of the files has a time from which the composite's name could be
    /// made.
    TimestampUnavailable,
    /// The composite could not be encoded or written.
    PersistFailed,
    /// The directory could not be listed, or an earlier composite could not be
    /// removed.
    FilesystemError,
    /// The composite, or a buffer needed on the way to it, is larger than a
    /// buffer can be.
    CanvasTooLarge,
}

impl MergeError {
    /// What the error says of itself.
    pub open spec fn message_text(self) -> Seq<char> {
        match self {
            MergeError::EmptyInput => "No image files to merge"@,
            MergeError::SingleImage => "Only one image file found, skipping merge"@,
            MergeError::NoValidImages => "No valid images could be loaded"@,
            MergeError::TimestampUnavailable => "No valid dates found"@,
            MergeError::PersistFailed => "The merged image could not be written"@,
            MergeError::FilesystemError => "The directory could not be read or cleaned"@,
            MergeError::CanvasTooLarge => "The merged image would be too large"@,
        }
    }

    /// Whether the error asks for the directory to be passed over rather than
    /// reported as a failure: there was nothing to merge.
    pub open spec fn skips(self) -> bool {
        self == MergeError::EmptyInput || self == MergeError::SingleImage
    }

    /// What the error says of itself.
    pub fn message(&self) -> (text: String)
        ensures
            text@ == self.message_text(),
    {
        match self {
            MergeError::EmptyInput => String::from_str("No image files to merge"),
            MergeError::SingleImage => String::from_str(
                "Only one image file found, skipping merge",
            ),
            MergeError::NoValidImages => String::from_str("No valid images could be loaded"),
            MergeError::TimestampUnavailable => String::from_str("No valid dates found"),
            MergeError::PersistFailed => String::from_str("The merged image could not be written"),
            MergeError::FilesystemError => String::from_str(
                "The directory could not be read or cleaned",
            ),
            MergeError::CanvasTooLarge => String::from_str("The merged image would be too large"),
        }
    }

    /// Whether the directory is to be passed over rather than reported as a
    /// failure.
    pub fn is_skip(&self) -> (r: bool)
        ensures
            r == self.skips(),
    {
        match self {
            MergeError::EmptyInput => true,
            MergeError::SingleImage => true,
            _ => false,
        }
    }
}

} // verus!
