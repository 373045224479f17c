//! The failures a grading session can end with.

use vstd::prelude::*;

verus! {

/// Why a session, or one entry of it, stopped.
#[derive(Clone, Copy, Debug, PartialEq, Eq, Structural)]
pub enum GraderError {
    /// The submission has no downloadable attachment.
    AttachmentNotFound,
    /// A selection index was out of range or named a slot already taken.
    InvalidSelection,
    /// A submission lacks an owning user.
    MissingUserId,
    /// A request to the course service or for an attachment failed.
    Network,
    /// A directory or a file could not be read or written.
    Filesystem,
    /// The attachment is not an archive that can be unpacked.
    Archive,
    /// The regex engine refused the file-name pattern.
    PatternRejected,
}

impl GraderError {
    /// The text shown to the grader: the name of the kind.
    pub open spec fn label(self) -> Seq<char> {
        match self {
            GraderError::AttachmentNotFound => "AttachmentNotFound"@,
            GraderError::InvalidSelection => "InvalidSelection"@,
            GraderError::MissingUserId => "MissingUserId"@,
            GraderError::Network => "Network"@,
            GraderError::Filesystem => "Filesystem"@,
            GraderError::Archive => "Archive"@,
            GraderError::PatternRejected => "PatternRejected"@,
        }
    }

    /// Returns the text shown to the grader when the session stops with `self`.
    pub fn name(&self) -> (text: &'static str)
        ensures
            text@ == self.label(),
    {
        match self {
            GraderError::AttachmentNotFound => "AttachmentNotFound",
            GraderError::InvalidSelection => "InvalidSelection",
            GraderError::MissingUserId => "MissingUserId",
            GraderError::Network => "Network",
            GraderError::Filesystem => "Filesystem",
            GraderError::Archive => "Archive",
            GraderError::PatternRejected => "PatternRejected",
        }
    }
}

} // verus!
