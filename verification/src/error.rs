//! What can go wrong, and how it is put into words.

use crate::codec::Member;
use vstd::prelude::*;
use vstd::string::StringExecFns;

verus! {

/// The kind of an error of the readers and decoders.
#[verifier::external_type_specification]
#[verifier::external_body]
pub struct ExErrorKind(std::io::ErrorKind);

/// Why a member could not be read. A failure that a reader or a decoder
/// reported keeps the kind of the error that it reported.
#[derive(Copy, Clone, Debug, PartialEq, Eq)]
pub enum Failure {
    /// The bytes are no container of the common format, so that no member
    /// is looked for in them.
    Layout,
    /// The outer container does not yield the member.
    Container(std::io::ErrorKind),
    /// The member's bytes are no stream of its codec.
    Stream(std::io::ErrorKind),
    /// The decompressed stream is no tar archive, or an entry of it cannot
    /// be read.
    Tar(std::io::ErrorKind),
    /// A line of the control file is not UTF-8.
    Text,
}

/// An error of the archive.
#[derive(Copy, Clone, Debug, PartialEq, Eq)]
pub enum Error {
    /// The bytes are no container of the common format.
    Malformed,
    /// The container holds no data member.
    DataNotFound,
    /// The container holds no control member.
    ControlNotFound,
    /// A member was found when the archive was opened and cannot be read
    /// now.
    Read(Member, Failure),
}

/// The error of a walk over the entries of a member: the archive's, or the
/// visitor's own.
#[derive(Debug)]
pub enum VisitError<E> {
    Archive(Error),
    Visitor(E),
}

/// An outcome with what it holds taken by its view.
pub open spec fn view_of<T: View, E>(outcome: Result<T, E>) -> Result<T::V, E> {
    match outcome {
        Ok(value) => Ok(value@),
        Err(error) => Err(error),
    }
}

/// The name of a member in a message.
pub open spec fn member_word(member: Member) -> Seq<char> {
    match member {
        Member::Control => "control"@,
        Member::Data => "data"@,
    }
}

/// A failure in words.
pub open spec fn failure_words(failure: Failure) -> Seq<char> {
    match failure {
        Failure::Layout => "the outer archive is not of the common ar format"@,
        Failure::Container(_) => "the outer archive does not yield the member"@,
        Failure::Stream(_) => "the member cannot be decompressed"@,
        Failure::Tar(_) => "the tar stream is malformed"@,
        Failure::Text => "the control file is not valid UTF-8"@,
    }
}

/// The kind of the error that a reader or a decoder reported; `None` for a
/// failure that none of them reported.
pub open spec fn failure_kind(failure: Failure) -> Option<std::io::ErrorKind> {
    match failure {
        Failure::Container(kind) => Some(kind),
        Failure::Stream(kind) => Some(kind),
        Failure::Tar(kind) => Some(kind),
        Failure::Layout => None,
        Failure::Text => None,
    }
}

/// What is said of an error that came up while `member` was read from the
/// archive at `path`: what went wrong stands after it.
pub open spec fn reading_of(member: Member, path: Seq<char>) -> Seq<char> {
    "error reading "@ + member_word(member) + " archive within "@ + path + ": "@
}

/// An error in words, for an archive that was read from `path`.
pub open spec fn message_of(error: Error, path: Seq<char>) -> Seq<char> {
    match error {
        Error::Malformed => "not an archive of the common ar format: "@ + path,
        Error::DataNotFound => "data archive not found in "@ + path,
        Error::ControlNotFound => "control archive not found in "@ + path,
        Error::Read(member, failure) => reading_of(member, path) + failure_words(failure),
    }
}

/// The kind of the error that a reader or a decoder reported and that
/// `error` keeps; `None` for an error that none of them reported.
pub open spec fn error_kind(error: Error) -> Option<std::io::ErrorKind> {
    match error {
        Error::Read(_, failure) => failure_kind(failure),
        _ => None,
    }
}

impl Member {
    /// The name of the member in a message.
    pub fn word(&self) -> (word: &'static str)
        ensures
            word@ == member_word(*self),
    {
        match self {
            Member::Control => "control",
            Member::Data => "data",
        }
    }
    /// What is said of an error that came up while this member was read
    /// from the archive at `path`: what went wrong is to follow it.
    pub fn reading(&self, path: &str) -> (text: String)
        ensures
            text@ == reading_of(*self, path@),
    {
        let mut text = String::from_str("error reading ");
        text.append(self.word());
        text.append(" archive within ");
        text.append(path);
        text.append(": ");
        text
    }
}

impl Failure {
    /// The failure in words.
    pub fn words(&self) -> (words: &'static str)
        ensures
            words@ == failure_words(*self),
    {
        match self {
            Failure::Layout => "the outer archive is not of the common ar format",
            Failure::Container(_) => "the outer archive does not yield the member",
            Failure::Stream(_) => "the member cannot be decompressed",
            Failure::Tar(_) => "the tar stream is malformed",
            Failure::Text => "the control file is not valid UTF-8",
        }
    }

    /// The kind of the error that a reader or a decoder reported; `None`
    /// for a failure that none of them reported.
    pub fn kind(&self) -> (kind: Option<std::io::ErrorKind>)
        ensures
            kind == failure_kind(*self),
    {
        match self {
            Failure::Container(kind) => Some(*kind),
            Failure::Stream(kind) => Some(*kind),
            Failure::Tar(kind) => Some(*kind),
            Failure::Layout => None,
            Failure::Text => None,
        }
    }
}

impl Error {
    /// The error in words, naming the file that the archive was read from.
    pub fn message(&self, path: &str) -> (text: String)
        ensures
            text@ == message_of(*self, path@),
    {
        match self {
            Error::Malformed => {
                let mut text = String::from_str("not an archive of the common ar format: ");
                text.append(path);
                text
            },
            Error::DataNotFound => {
                let mut text = String::from_str("data archive not found in ");
                text.append(path);
                text
            },
            Error::ControlNotFound => {
                let mut text = String::from_str("control archive not found in ");
                text.append(path);
                text
            },
            Error::Read(member, failure) => {
                let mut text = member.reading(path);
                text.append(failure.words());
                text
            },
        }
    }

    /// The kind of the error that a reader or a decoder reported; `None`
    /// for an error that none of them reported.
    pub fn kind(&self) -> (kind: Option<std::io::ErrorKind>)
        ensures
            kind == error_kind(*self),
    {
        match self {
            Error::Read(_, failure) => failure.kind(),
            _ => None,
        }
    }
}

} // verus!
