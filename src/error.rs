use vstd::prelude::*;
use crate::text::{decimal, decimal_text};

verus! {

/// Every failure that an operation of the tracker can report.
#[derive(Debug, Clone, PartialEq, Eq)]
pub enum Error {
    /// No tracker directory was found from the starting point upward.
    NotARepository,
    /// A tracker directory already exists where one was to be created.
    AlreadyInitialized,
    /// No issue has this id.
    IssueNotFound(i64),
    /// No comment has this id.
    CommentNotFound(i64),
    /// No label has this name (compared without regard to ASCII case).
    LabelNotFound(String),
    /// A label of this name exists already.
    LabelExists(String),
    /// The issue is already in the state named by the text (`open` or `closed`).
    InvalidStateTransition(i64, String),
    /// A color that is not six hex digits.
    InvalidColor(String),
    /// A type name that is not epic, task, bug or request.
    InvalidIssueType(String),
    /// A reason name that is not completed or not_planned.
    InvalidStateReason(String),
    /// An issue cannot be linked to itself.
    SelfLink,
    /// An issue's title cannot be empty.
    EmptyTitle,
    /// The two issues are linked already (smaller id first).
    DuplicateLink(i64, i64),
    /// The operation is not available.
    NotImplemented(String),
    /// The store could not do what was asked (an exhausted id space, or an
    /// error of the engine underneath, passed on as its message).
    Storage(String),
}

/// The families that errors fall into.
#[derive(Debug, Clone, Copy, PartialEq, Eq, Structural)]
pub enum ErrorKind {
    /// A store, issue, comment or label that is not there.
    NotFound,
    /// A duplicate label or link, or a tracker created twice.
    AlreadyExists,
    /// A bad color, type or reason name, a self-link, or an empty title.
    InvalidInput,
    /// Closing a closed issue or reopening an open one.
    InvalidStateTransition,
    /// A failure of the store underneath, passed on unchanged.
    StorageFailure,
}

/// The family of an error.
pub open spec fn kind_of(e: Error) -> ErrorKind {
    match e {
        Error::NotARepository | Error::IssueNotFound(_) | Error::CommentNotFound(_) | Error::LabelNotFound(_) => ErrorKind::NotFound,
        Error::AlreadyInitialized | Error::LabelExists(_) | Error::DuplicateLink(_, _) => ErrorKind::AlreadyExists,
        Error::InvalidColor(_) | Error::InvalidIssueType(_) | Error::InvalidStateReason(_) | Error::SelfLink | Error::EmptyTitle => ErrorKind::InvalidInput,
        Error::InvalidStateTransition(_, _) => ErrorKind::InvalidStateTransition,
        Error::NotImplemented(_) | Error::Storage(_) => ErrorKind::StorageFailure,
    }
}

/// The text of an error as it is shown to a person.
pub open spec fn message_text(e: Error) -> Seq<char> {
    match e {
        Error::NotARepository => "Not a skis repository (or any parent up to /). Run 'skis init' to create one."@,
        Error::AlreadyInitialized => "Already initialized"@,
        Error::IssueNotFound(n) => "Issue #"@ + decimal_text(n as int) + " not found"@,
        Error::CommentNotFound(n) => "Comment #"@ + decimal_text(n as int) + " not found"@,
        Error::LabelNotFound(s) => "Label '"@ + s@ + "' not found. Create it with: skis label create "@ + s@,
        Error::LabelExists(s) => "Label '"@ + s@ + "' already exists"@,
        Error::InvalidStateTransition(n, s) => "Issue #"@ + decimal_text(n as int) + " is already "@ + s@,
        Error::InvalidColor(s) => "Invalid color '"@ + s@ + "': must be 6 hex characters (e.g., ff0000)"@,
        Error::InvalidIssueType(s) => "Invalid issue type '"@ + s@ + "': must be epic, task, bug, or request"@,
        Error::InvalidStateReason(s) => "Invalid state reason '"@ + s@ + "': must be completed or not_planned"@,
        Error::SelfLink => "Cannot link issue to itself"@,
        Error::EmptyTitle => "Title cannot be empty"@,
        Error::DuplicateLink(a, b) => "Link already exists between issues #"@ + decimal_text(a as int) + " and #"@
            + decimal_text(b as int),
        Error::NotImplemented(s) => s@ + ": not yet implemented"@,
        Error::Storage(s) => s@,
    }
}

impl Error {
    /// The family of the error (see `kind_of`).
    pub fn kind(&self) -> (r: ErrorKind)
        ensures
            r == kind_of(*self),
    {
        match self {
            Error::NotARepository | Error::IssueNotFound(_) | Error::CommentNotFound(_) | Error::LabelNotFound(_) => ErrorKind::NotFound,
            Error::AlreadyInitialized | Error::LabelExists(_) | Error::DuplicateLink(_, _) => ErrorKind::AlreadyExists,
            Error::InvalidColor(_) | Error::InvalidIssueType(_) | Error::InvalidStateReason(_) | Error::SelfLink | Error::EmptyTitle => ErrorKind::InvalidInput,
            Error::InvalidStateTransition(_, _) => ErrorKind::InvalidStateTransition,
            Error::NotImplemented(_) | Error::Storage(_) => ErrorKind::StorageFailure,
        }
    }

    /// The error's message (see `message_text`).
    pub fn to_string(&self) -> (r: String)
        ensures
            r@ == message_text(*self),
    {
        let mut m = String::new();
        match self {
            Error::NotARepository => {
                m.append("Not a skis repository (or any parent up to /). Run 'skis init' to create one.");
            },
            Error::AlreadyInitialized => {
                m.append("Already initialized");
            },
            Error::IssueNotFound(n) => {
                m.append("Issue #");
                m.append(decimal(*n).as_str());
                m.append(" not found");
            },
            Error::CommentNotFound(n) => {
                m.append("Comment #");
                m.append(decimal(*n).as_str());
                m.append(" not found");
            },
            Error::LabelNotFound(s) => {
                m.append("Label '");
                m.append(s.as_str());
                m.append("' not found. Create it with: skis label create ");
                m.append(s.as_str());
            },
            Error::LabelExists(s) => {
                m.append("Label '");
                m.append(s.as_str());
                m.append("' already exists");
            },
            Error::InvalidStateTransition(n, s) => {
                m.append("Issue #");
                m.append(decimal(*n).as_str());
                m.append(" is already ");
                m.append(s.as_str());
            },
            Error::InvalidColor(s) => {
                m.append("Invalid color '");
                m.append(s.as_str());
                m.append("': must be 6 hex characters (e.g., ff0000)");
            },
            Error::InvalidIssueType(s) => {
                m.append("Invalid issue type '");
                m.append(s.as_str());
                m.append("': must be epic, task, bug, or request");
            },
            Error::InvalidStateReason(s) => {
                m.append("Invalid state reason '");
                m.append(s.as_str());
                m.append("': must be completed or not_planned");
            },
            Error::SelfLink => {
                m.append("Cannot link issue to itself");
            },
            Error::EmptyTitle => {
                m.append("Title cannot be empty");
            },
            Error::DuplicateLink(a, b) => {
                m.append("Link already exists between issues #");
                m.append(decimal(*a).as_str());
                m.append(" and #");
                m.append(decimal(*b).as_str());
            },
            Error::NotImplemented(s) => {
                m.append(s.as_str());
                m.append(": not yet implemented");
            },
            Error::Storage(s) => {
                m.append(s.as_str());
            },
        }
        proof {
            assert(m@ =~= message_text(*self));
        }
        m
    }
}

} // verus!
