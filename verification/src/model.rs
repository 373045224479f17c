//! The records a grading session works on. Each holds, as plain values, what
//! the session reads of the course service's answers and of the files on disk.

use vstd::prelude::*;

verus! {

/// A downloadable archive handed in with a submission.
#[derive(Clone, Debug, PartialEq, Eq)]
pub struct Attachment {
    /// Where the archive can be fetched from.
    pub url: String,
}

/// One student's handed-in work for one assignment.
#[derive(Clone, Debug, PartialEq, Eq)]
pub struct Submission {
    /// The owning user; its absence is a fault in the data.
    pub user_id: Option<usize>,
    /// The attachments, if the service listed any.
    pub attachments: Option<Vec<Attachment>>,
}

/// The person behind a submission.
#[derive(Clone, Debug, PartialEq, Eq)]
pub struct UserProfile {
    /// A "last, first" display name: the sort key of the roster and the name
    /// of the directory the submission is unpacked into.
    pub sortable_name: String,
}

/// A submission together with the profile of its owner.
#[derive(Clone, Debug, PartialEq, Eq)]
pub struct UserSubmission {
    pub user_profile: UserProfile,
    pub submission: Submission,
}

/// A submission whose archive has been unpacked into `path`.
#[derive(Clone, Debug, PartialEq, Eq)]
pub struct DownloadedSubmission {
    pub user_profile: UserProfile,
    pub path: String,
}

/// One regular file of an unpacked submission.
#[derive(Clone, Debug, PartialEq, Eq)]
pub struct FileRecord {
    /// The text of the file; `None` for a file that is not readable text.
    pub contents: Option<String>,
    pub path: String,
    pub name: String,
}

/// What a [`FileRecord`] is to the reports: its name, its path and its text.
pub struct FileView {
    pub contents: Option<Seq<char>>,
    pub path: Seq<char>,
    pub name: Seq<char>,
}

impl View for FileRecord {
    type V = FileView;

    open spec fn view(&self) -> FileView {
        FileView {
            contents: match self.contents {
                Some(text) => Some(text@),
                None => None,
            },
            path: self.path@,
            name: self.name@,
        }
    }
}

impl FileView {
    /// The text the checks search: the contents, or nothing for a file
    /// without readable text.
    pub open spec fn text(self) -> Seq<char> {
        match self.contents {
            Some(text) => text,
            None => Seq::empty(),
        }
    }
}

impl Submission {
    /// The submission has at least one attachment.
    pub open spec fn has_attachment(&self) -> bool {
        self.attachments matches Some(list) && list@.len() > 0
    }

    /// The address of the first attachment.
    pub open spec fn first_url(&self) -> Seq<char>
        recommends
            self.has_attachment(),
    {
        self.attachments->0@[0].url@
    }
}

impl UserSubmission {
    /// The key the roster is sorted by.
    pub open spec fn sort_key(&self) -> Seq<char> {
        self.user_profile.sortable_name@
    }
}

} // verus!
