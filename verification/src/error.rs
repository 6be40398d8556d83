//! Why an operation on the store was refused.

use vstd::prelude::*;

verus! {

/// The collection that an id was looked up in.
#[derive(Debug, Clone, Copy, PartialEq, Eq, Structural)]
pub enum Record {
    Group,
    Server,
}

/// A rule of the collection that a request would break.
#[derive(Debug, PartialEq, Eq)]
pub enum Violation {
    /// A server names a group that the collection does not hold.
    UnknownGroup(String),
    /// Two groups would share this id.
    DuplicateGroupId(String),
    /// Two servers would share this id.
    DuplicateServerId(String),
    /// The authentication tag is neither `password` nor `key`.
    InvalidAuthType,
}

/// What a [`Violation`] is in contracts.
pub enum ViolationView {
    UnknownGroup(Seq<char>),
    DuplicateGroupId(Seq<char>),
    DuplicateServerId(Seq<char>),
    InvalidAuthType,
}

impl View for Violation {
    type V = ViolationView;

    open spec fn view(&self) -> ViolationView {
        match self {
            Violation::UnknownGroup(id) => ViolationView::UnknownGroup(id@),
            Violation::DuplicateGroupId(id) => ViolationView::DuplicateGroupId(id@),
            Violation::DuplicateServerId(id) => ViolationView::DuplicateServerId(id@),
            Violation::InvalidAuthType => ViolationView::InvalidAuthType,
        }
    }
}

/// A failed operation. The first two variants carry the storage layer's own
/// account of what went wrong.
#[derive(Debug, PartialEq, Eq)]
pub enum Error {
    /// The storage location could not be created, read or written.
    StorageUnavailable(String),
    /// A document exists but does not have the shape of a dataset.
    Corrupt(String),
    /// The id is absent from the collection it was looked up in.
    NotFound(Record),
    /// The request would break a rule of the collection.
    Validation(Violation),
}

/// What an [`Error`] is in contracts.
pub enum ErrorView {
    StorageUnavailable(Seq<char>),
    Corrupt(Seq<char>),
    NotFound(Record),
    Validation(ViolationView),
}

impl View for Error {
    type V = ErrorView;

    open spec fn view(&self) -> ErrorView {
        match self {
            Error::StorageUnavailable(detail) => ErrorView::StorageUnavailable(detail@),
            Error::Corrupt(detail) => ErrorView::Corrupt(detail@),
            Error::NotFound(record) => ErrorView::NotFound(*record),
            Error::Validation(violation) => ErrorView::Validation(violation@),
        }
    }
}

impl ErrorView {
    /// The one-line message shown to the user.
    pub open spec fn message(self) -> Seq<char> {
        match self {
            ErrorView::StorageUnavailable(detail) => "IO error: "@ + detail,
            ErrorView::Corrupt(detail) => "JSON error: "@ + detail,
            ErrorView::NotFound(Record::Group) => "Group not found"@,
            ErrorView::NotFound(Record::Server) => "Server not found"@,
            ErrorView::Validation(ViolationView::UnknownGroup(id)) => "Group with id "@ + id
                + " not found"@,
            ErrorView::Validation(ViolationView::DuplicateGroupId(id)) => "Group with id "@ + id
                + " already exists"@,
            ErrorView::Validation(ViolationView::DuplicateServerId(id)) => "Server with id "@ + id
                + " already exists"@,
            ErrorView::Validation(ViolationView::InvalidAuthType) => "Invalid authentication type"@,
        }
    }
}

impl Error {
    /// The one-line message shown to the user.
    pub fn message(&self) -> (text: String)
        ensures
            text@ == self@.message(),
    {
        match self {
            Error::StorageUnavailable(detail) => {
                let mut text = "IO error: ".to_owned();
                text.append(detail.as_str());
                text
            },
            Error::Corrupt(detail) => {
                let mut text = "JSON error: ".to_owned();
                text.append(detail.as_str());
                text
            },
            Error::NotFound(Record::Group) => "Group not found".to_owned(),
            Error::NotFound(Record::Server) => "Server not found".to_owned(),
            Error::Validation(Violation::UnknownGroup(id)) => {
                let mut text = "Group with id ".to_owned();
                text.append(id.as_str());
                text.append(" not found");
                text
            },
            Error::Validation(Violation::DuplicateGroupId(id)) => {
                let mut text = "Group with id ".to_owned();
                text.append(id.as_str());
                text.append(" already exists");
                text
            },
            Error::Validation(Violation::DuplicateServerId(id)) => {
                let mut text = "Server with id ".to_owned();
                text.append(id.as_str());
                text.append(" already exists");
                text
            },
            Error::Validation(Violation::InvalidAuthType) => {
                "Invalid authentication type".to_owned()
            },
        }
    }
}

} // verus!
