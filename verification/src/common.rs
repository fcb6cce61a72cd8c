//! The error taxonomy and the in-memory file that every layer shares.

use vstd::prelude::*;
use vstd::string::StringExecFns;
use vstd::utf8::{decode_utf8, valid_utf8};

use crate::paths::{file_name, file_name_of};
use crate::strings::{decode, string_of};
use crate::text::chars_of;

verus! {

/// The five kinds of failure that the server tells apart.
#[derive(Clone, Copy, Debug, PartialEq, Eq, Structural)]
pub enum ErrorKind {
    /// Reading or writing a file or a stream failed.
    IO,
    /// The client sent something malformed.
    Invalid,
    /// The file or page asked for does not exist.
    NotFound,
    /// The client reached for something outside the uploads directory.
    NotPermitted,
    /// Anything else.
    Unknown,
}

/// A failure of one of the five kinds, with a message for the log.
#[derive(Debug)]
pub enum AppError {
    IO(String),
    Invalid(String),
    NotFound(String),
    NotPermitted(String),
    Unknown(String),
}

impl AppError {
    /// The kind of this failure.
    pub open spec fn kind(&self) -> ErrorKind {
        match self {
            AppError::IO(_) => ErrorKind::IO,
            AppError::Invalid(_) => ErrorKind::Invalid,
            AppError::NotFound(_) => ErrorKind::NotFound,
            AppError::NotPermitted(_) => ErrorKind::NotPermitted,
            AppError::Unknown(_) => ErrorKind::Unknown,
        }
    }

    /// Tells the kind of this failure.
    pub fn get_kind(&self) -> (k: ErrorKind)
        ensures
            k == self.kind(),
    {
        match self {
            AppError::IO(_) => ErrorKind::IO,
            AppError::Invalid(_) => ErrorKind::Invalid,
            AppError::NotFound(_) => ErrorKind::NotFound,
            AppError::NotPermitted(_) => ErrorKind::NotPermitted,
            AppError::Unknown(_) => ErrorKind::Unknown,
        }
    }

    /// The message that goes to the log.
    pub fn message(&self) -> (m: &String)
        ensures
            m == match self {
                AppError::IO(s) => s,
                AppError::Invalid(s) => s,
                AppError::NotFound(s) => s,
                AppError::NotPermitted(s) => s,
                AppError::Unknown(s) => s,
            },
    {
        match self {
            AppError::IO(s) => s,
            AppError::Invalid(s) => s,
            AppError::NotFound(s) => s,
            AppError::NotPermitted(s) => s,
            AppError::Unknown(s) => s,
        }
    }

    /// A malformed-input failure with the given message.
    pub fn invalid(message: &str) -> (e: AppError)
        ensures
            e matches AppError::Invalid(m) && m@ == message@,
    {
        AppError::Invalid(message.to_owned())
    }

    /// A malformed-input failure whose message says what it is about.
    pub fn invalid_about(message: &str, subject: &str) -> (e: AppError)
        ensures
            e matches AppError::Invalid(m) && m@ == message@ + subject@,
    {
        AppError::Invalid(about(message, subject))
    }
}

/// A message followed by what it is about.
pub fn about(message: &str, subject: &str) -> (r: String)
    ensures
        r@ == message@ + subject@,
{
    message.to_owned().concat(subject)
}

/// A file held in memory: an upload, a file read for serving, or a page
/// that the server made up.
#[derive(Debug)]
pub struct BufferedFile {
    pub name: String,
    pub content: Vec<u8>,
}

/// What the file system said of a path that was to be read.
#[derive(Debug)]
pub enum FileProbe {
    /// Nothing exists at the path.
    Missing,
    /// The path names a directory.
    Directory,
    /// The file exists and could not be opened.
    Unopenable,
    /// The file was opened and could not be read to its end.
    Unreadable,
    /// The whole content of the file.
    Content(Vec<u8>),
}

/// The file that a path and the answer of the file system amount to: the
/// name is the base name of the path, the content is what was read.
pub open spec fn probed_file(path: Seq<char>, probe: FileProbe) -> Result<
    (Seq<char>, Seq<u8>),
    ErrorKind,
> {
    match probe {
        FileProbe::Missing => Err(ErrorKind::NotFound),
        FileProbe::Directory => Err(ErrorKind::NotFound),
        FileProbe::Unopenable => if file_name(path) is None {
            Err(ErrorKind::Invalid)
        } else {
            Err(ErrorKind::NotFound)
        },
        FileProbe::Unreadable => if file_name(path) is None {
            Err(ErrorKind::Invalid)
        } else {
            Err(ErrorKind::IO)
        },
        FileProbe::Content(content) => match file_name(path) {
            Some(name) => Ok((name, content@)),
            None => Err(ErrorKind::Invalid),
        },
    }
}

impl BufferedFile {
    /// Makes the file to serve out of its path and of what the file system
    /// said of that path.
    pub fn try_from(path: &str, probe: FileProbe) -> (r: Result<BufferedFile, AppError>)
        ensures
            match r {
                Ok(file) => probed_file(path@, probe) == Ok::<_, ErrorKind>(
                    (file.name@, file.content@),
                ),
                Err(e) => probed_file(path@, probe) == Err::<(Seq<char>, Seq<u8>), _>(e.kind()),
            },
    {
        match probe {
            FileProbe::Missing => Err(AppError::NotFound(about("File does not exist: ", path))),
            FileProbe::Directory => Err(
                AppError::NotFound(about("Path for file is a directory: ", path)),
            ),
            rest => {
                let text = chars_of(path);
                let Some(name) = file_name_of(text.as_slice()) else {
                    return Err(AppError::invalid_about("Invalid file name: ", path));
                };
                let name = string_of(name.as_slice());
                match rest {
                    FileProbe::Unopenable => Err(
                        AppError::NotFound(about("File failed to open: ", name.as_str())),
                    ),
                    FileProbe::Unreadable => Err(
                        AppError::IO(about("Error reading file into buffer: ", name.as_str())),
                    ),
                    FileProbe::Content(content) => Ok(BufferedFile { name, content }),
                    _ => Err(AppError::NotFound(about("File does not exist: ", path))),
                }
            },
        }
    }

    /// The file as text for a reader: its name, and its content where
    /// that is text.
    pub fn to_text(&self) -> (r: String)
        ensures
            r@ == file_text(self.name@, self.content@),
    {
        let mut out = chars_of("Filename: ");
        let name = chars_of(self.name.as_str());
        out.extend_from_slice(name.as_slice());
        let label = chars_of("\nFile content: ");
        out.extend_from_slice(label.as_slice());
        let content = match decode(self.content.clone()) {
            Some(text) => chars_of(text.as_str()),
            None => chars_of("File is not text based"),
        };
        out.extend_from_slice(content.as_slice());
        assert(out@ =~= file_text(self.name@, self.content@));
        string_of(out.as_slice())
    }
}

/// A file as text for a reader: its name, and its content where that is
/// text.
pub open spec fn file_text(name: Seq<char>, content: Seq<u8>) -> Seq<char> {
    "Filename: "@ + name + "\nFile content: "@ + if valid_utf8(content) {
        decode_utf8(content)
    } else {
        "File is not text based"@
    }
}

} // verus!
