//! What to tell the user after a file of the project was removed.
//!
//! The caller removes the file and reports what the file system said; a file
//! that was not there is no failure.

use vstd::prelude::*;
use vstd::string::StringExecFns;

verus! {

/// What the file system said when asked to remove a file.
#[derive(Debug)]
pub enum Removal {
    /// The file is gone.
    Removed,
    /// There was no such file.
    NotFound,
    /// The file could not be removed; the cause in the system's words.
    Failed(String),
}

/// A message for the user, by kind.
#[derive(Debug)]
pub enum Notice {
    /// Something was done.
    Success(String),
    /// Nothing had to be done.
    Info(String),
}

/// A `Notice` as the contracts see it.
pub enum NoticeView {
    Success(Seq<char>),
    Info(Seq<char>),
}

impl View for Notice {
    type V = NoticeView;

    open spec fn view(&self) -> NoticeView {
        match self {
            Notice::Success(text) => NoticeView::Success(text@),
            Notice::Info(text) => NoticeView::Info(text@),
        }
    }
}

/// A file operation that failed, with the message to show.
#[derive(Debug)]
pub struct FileError {
    pub message: String,
}

/// What a removal is reported as.
pub open spec fn removal_spec(file: Seq<char>, removal: Removal) -> Result<NoticeView, Seq<char>> {
    match removal {
        Removal::Removed => Ok(NoticeView::Success(file + " file removed."@)),
        Removal::NotFound => Ok(NoticeView::Info(file + " file does not exist."@)),
        Removal::Failed(cause) => Err("Failed to remove "@ + file + " file: "@ + cause@),
    }
}

/// Reports the removal of `file`: done, not needed because the file was not
/// there, or failed.
pub fn removal_notice(file: &str, removal: Removal) -> (report: Result<Notice, FileError>)
    ensures
        match report {
            Ok(notice) => removal_spec(file@, removal) == Ok::<NoticeView, Seq<char>>(notice@),
            Err(error) => removal_spec(file@, removal) == Err::<NoticeView, Seq<char>>(
                error.message@,
            ),
        },
{
    match removal {
        Removal::Removed => {
            let mut text = file.to_owned();
            text.append(" file removed.");
            Ok(Notice::Success(text))
        },
        Removal::NotFound => {
            let mut text = file.to_owned();
            text.append(" file does not exist.");
            Ok(Notice::Info(text))
        },
        Removal::Failed(cause) => {
            let mut message = "Failed to remove ".to_owned();
            message.append(file);
            message.append(" file: ");
            message.append(cause.as_str());
            Err(FileError { message })
        },
    }
}

} // verus!
