//! The failures the library returns.
//!
//! Every failure names the file, member or path it is about. [`ErrorKind`] is the closed
//! list; [`Error`] is what functions return. Contracts speak of an error through its view,
//! [`ErrorKindView`], which holds the same data as sequences of characters.
use crate::text::{decimal, decimal_text};
use vstd::prelude::*;

verus! {

/// What went wrong, with the file, member or path it went wrong on.
#[derive(Debug, PartialEq)]
pub enum ErrorKind {
    /// The outer file does not parse as a zip archive.
    NotZipArchive(String),
    /// No member of the current archive bears the requested name.
    ZipFileEntryNotFound(String),
    /// The named member does not parse as a zip archive.
    ZipEntryNotZipArchive(String),
    /// The outer file is absent.
    DoesNotExist(String),
    /// A lower-level failure, with its message.
    IoError(String),
    /// Piping was requested without a member to pipe.
    UnpackTargetMissing,
    /// The directory at the path could not be created.
    CannotCreateDirectory(String),
    /// The file at the path could not be created.
    CannotCreateFile(String),
    /// The mode could not be set on what is at the path.
    CannotSetPermissions(u32, String),
    /// Something already occupies the path a member would be written to.
    TargetAlreadyExists(String),
}

/// What an [`ErrorKind`] says, as mathematical values.
pub enum ErrorKindView {
    NotZipArchive(Seq<char>),
    ZipFileEntryNotFound(Seq<char>),
    ZipEntryNotZipArchive(Seq<char>),
    DoesNotExist(Seq<char>),
    IoError(Seq<char>),
    UnpackTargetMissing,
    CannotCreateDirectory(Seq<char>),
    CannotCreateFile(Seq<char>),
    CannotSetPermissions(u32, Seq<char>),
    TargetAlreadyExists(Seq<char>),
}

impl View for ErrorKind {
    type V = ErrorKindView;

    open spec fn view(&self) -> ErrorKindView {
        match self {
            ErrorKind::NotZipArchive(file) => ErrorKindView::NotZipArchive(file@),
            ErrorKind::ZipFileEntryNotFound(name) => ErrorKindView::ZipFileEntryNotFound(name@),
            ErrorKind::ZipEntryNotZipArchive(name) => ErrorKindView::ZipEntryNotZipArchive(name@),
            ErrorKind::DoesNotExist(file) => ErrorKindView::DoesNotExist(file@),
            ErrorKind::IoError(text) => ErrorKindView::IoError(text@),
            ErrorKind::UnpackTargetMissing => ErrorKindView::UnpackTargetMissing,
            ErrorKind::CannotCreateDirectory(path) => ErrorKindView::CannotCreateDirectory(path@),
            ErrorKind::CannotCreateFile(path) => ErrorKindView::CannotCreateFile(path@),
            ErrorKind::CannotSetPermissions(mode, path) => ErrorKindView::CannotSetPermissions(
                *mode,
                path@,
            ),
            ErrorKind::TargetAlreadyExists(path) => ErrorKindView::TargetAlreadyExists(path@),
        }
    }
}

/// The line shown to the user for a failure.
pub open spec fn message_text(kind: ErrorKindView) -> Seq<char> {
    match kind {
        ErrorKindView::NotZipArchive(file) => "File '"@ + file + "' is not a zip archive"@,
        ErrorKindView::ZipFileEntryNotFound(name) => "Zip archive does not contain entry '"@ + name
            + "'"@,
        ErrorKindView::ZipEntryNotZipArchive(name) => "Zip entry '"@ + name
            + "' is not a zip archive"@,
        ErrorKindView::DoesNotExist(file) => "No such file or directory '"@ + file + "'"@,
        ErrorKindView::IoError(text) => "IO error: "@ + text,
        ErrorKindView::UnpackTargetMissing =>
            "No nested target file provided for unpack. Please provide a nested file you want to unpack"@,
        ErrorKindView::CannotCreateDirectory(path) => "Failed to create directory '"@ + path + "'"@,
        ErrorKindView::CannotCreateFile(path) => "Cannot create file '"@ + path + "'"@,
        ErrorKindView::CannotSetPermissions(mode, path) => "Cannot set permission '"@ + decimal(
            mode as nat,
        ) + "' for file '"@ + path + "'"@,
        ErrorKindView::TargetAlreadyExists(path) => "Unpack target '"@ + path + "' already exists"@,
    }
}

fn framed(before: &str, middle: &str, after: &str) -> (text: String)
    ensures
        text@ == before@ + middle@ + after@,
{
    let mut text = String::from_str(before);
    text.append(middle);
    text.append(after);
    text
}

impl ErrorKind {
    /// The line shown to the user for this failure.
    pub fn message(&self) -> (text: String)
        ensures
            text@ == message_text(self@),
    {
        match self {
            ErrorKind::NotZipArchive(file) => framed("File '", file.as_str(), "' is not a zip archive"),
            ErrorKind::ZipFileEntryNotFound(name) => framed(
                "Zip archive does not contain entry '",
                name.as_str(),
                "'",
            ),
            ErrorKind::ZipEntryNotZipArchive(name) => framed(
                "Zip entry '",
                name.as_str(),
                "' is not a zip archive",
            ),
            ErrorKind::DoesNotExist(file) => framed("No such file or directory '", file.as_str(), "'"),
            ErrorKind::IoError(text) => {
                let mut line = String::from_str("IO error: ");
                line.append(text.as_str());
                line
            },
            ErrorKind::UnpackTargetMissing => String::from_str(
                "No nested target file provided for unpack. Please provide a nested file you want to unpack",
            ),
            ErrorKind::CannotCreateDirectory(path) => framed(
                "Failed to create directory '",
                path.as_str(),
                "'",
            ),
            ErrorKind::CannotCreateFile(path) => framed("Cannot create file '", path.as_str(), "'"),
            ErrorKind::CannotSetPermissions(mode, path) => {
                let number = decimal_text(*mode);
                let mut line = framed("Cannot set permission '", number.as_str(), "' for file '");
                line.append(path.as_str());
                line.append("'");
                line
            },
            ErrorKind::TargetAlreadyExists(path) => framed(
                "Unpack target '",
                path.as_str(),
                "' already exists",
            ),
        }
    }
}

impl Clone for ErrorKind {
    fn clone(&self) -> (copy: ErrorKind)
        ensures
            copy@ == self@,
    {
        match self {
            ErrorKind::NotZipArchive(file) => ErrorKind::NotZipArchive(file.clone()),
            ErrorKind::ZipFileEntryNotFound(name) => ErrorKind::ZipFileEntryNotFound(name.clone()),
            ErrorKind::ZipEntryNotZipArchive(name) => ErrorKind::ZipEntryNotZipArchive(name.clone()),
            ErrorKind::DoesNotExist(file) => ErrorKind::DoesNotExist(file.clone()),
            ErrorKind::IoError(text) => ErrorKind::IoError(text.clone()),
            ErrorKind::UnpackTargetMissing => ErrorKind::UnpackTargetMissing,
            ErrorKind::CannotCreateDirectory(path) => ErrorKind::CannotCreateDirectory(path.clone()),
            ErrorKind::CannotCreateFile(path) => ErrorKind::CannotCreateFile(path.clone()),
            ErrorKind::CannotSetPermissions(mode, path) => ErrorKind::CannotSetPermissions(
                *mode,
                path.clone(),
            ),
            ErrorKind::TargetAlreadyExists(path) => ErrorKind::TargetAlreadyExists(path.clone()),
        }
    }
}

/// A failure of the library. It says what its [`ErrorKind`] says.
#[derive(Debug)]
pub struct Error {
    pub inner: ErrorKind,
}

impl View for Error {
    type V = ErrorKindView;

    open spec fn view(&self) -> ErrorKindView {
        self.inner@
    }
}

impl Error {
    /// What went wrong.
    pub fn kind(&self) -> (kind: ErrorKind)
        ensures
            kind@ == self@,
    {
        self.inner.clone()
    }

    /// The line shown to the user for this failure.
    pub fn message(&self) -> (text: String)
        ensures
            text@ == message_text(self@),
    {
        self.inner.message()
    }
}

impl From<ErrorKind> for Error {
    fn from(error_kind: ErrorKind) -> (error: Error) {
        Error { inner: error_kind }
    }
}

impl vstd::std_specs::convert::FromSpecImpl<ErrorKind> for Error {
    open spec fn obeys_from_spec() -> bool {
        true
    }

    open spec fn from_spec(error_kind: ErrorKind) -> Error {
        Error { inner: error_kind }
    }
}

} // verus!
