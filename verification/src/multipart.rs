//! Decoding of a `multipart/form-data` body that carries one file.

use vstd::prelude::*;
use vstd::slice::{slice_subrange, slice_to_vec};
use vstd::utf8::{decode_utf8, encode_utf8, valid_utf8};

use crate::common::{AppError, BufferedFile};
use crate::strings::{bytes_of, decode, string_of};
use crate::text::{
    chars_of, rsplit_once_char, split_at_first, split_at_last, split_once, strip, strip_prefix,
    strip_suffix, stripped, trim, trimmed, without_prefix, without_suffix, CharClass,
};

verus! {

/// The largest body, in bytes, that is accepted.
pub const MAX_FILE_SIZE: usize = 52428800;

/// The boundary that a `Content-Type` value declares.
pub open spec fn boundary_of(content_type: Seq<char>) -> Option<Seq<char>> {
    match split_at_first(content_type, "boundary="@) {
        Some((_, after)) => Some(trimmed(after)),
        None => None,
    }
}

/// The text between the opening and the closing boundary line.
pub open spec fn form_inside(text: Seq<char>, boundary: Seq<char>) -> Option<Seq<char>> {
    match without_prefix(trimmed(text), "--"@ + boundary) {
        Some(rest) => match without_suffix(rest, "--"@ + boundary + "--"@) {
            Some(inside) => Some(trimmed(inside)),
            None => None,
        },
        None => None,
    }
}

/// The three pieces of the part: the disposition line, the type line and
/// the data, cut at the first two line feeds.
pub open spec fn form_pieces(inside: Seq<char>) -> Option<(Seq<char>, Seq<char>, Seq<char>)> {
    match split_at_first(inside, "\n"@) {
        Some((disposition, rest)) => match split_at_first(rest, "\n"@) {
            Some((kind, data)) => Some((disposition, kind, data)),
            None => None,
        },
        None => None,
    }
}

/// The file name that a disposition line gives: what follows the first `=`
/// after the last `;`, without white space and quotes around it.
pub open spec fn disposition_file_name(disposition: Seq<char>) -> Option<Seq<char>> {
    match split_at_last(disposition, ';') {
        Some((_, part)) => match split_at_first(part, "="@) {
            Some((_, name)) => Some(stripped(trimmed(name), CharClass::Just('"'))),
            None => None,
        },
        None => None,
    }
}

/// The file in a decoded body: its name and its content.
pub open spec fn form_file(text: Seq<char>, boundary: Seq<char>) -> Option<(Seq<char>, Seq<u8>)> {
    match form_inside(text, boundary) {
        Some(inside) => match form_pieces(inside) {
            Some((disposition, _, data)) => match disposition_file_name(disposition) {
                Some(name) => Some((name, encode_utf8(trimmed(data)))),
                None => None,
            },
            None => None,
        },
        None => None,
    }
}

/// The file that a stream holds, given the declared type and length: the
/// first `content_length` bytes are the body. `None` where the body is too
/// long, the boundary is missing, the stream is short, the body is not
/// UTF-8 or the form is not of the expected shape.
pub open spec fn multipart_file(stream: Seq<u8>, content_type: Seq<char>, content_length: nat)
    -> Option<(Seq<char>, Seq<u8>)> {
    if content_length > MAX_FILE_SIZE {
        None
    } else {
        match boundary_of(content_type) {
            Some(boundary) => if stream.len() < content_length || !valid_utf8(
                stream.take(content_length as int),
            ) {
                None
            } else {
                form_file(decode_utf8(stream.take(content_length as int)), boundary)
            },
            None => None,
        }
    }
}

/// Reads the file name out of a disposition line.
pub fn file_name_from(disposition: &[char]) -> (r: Option<Vec<char>>)
    ensures
        match r {
            Some(name) => disposition_file_name(disposition@) == Some(name@),
            None => disposition_file_name(disposition@) is None,
        },
{
    match rsplit_once_char(disposition, ';') {
        Some((_, part)) => {
            let eq = chars_of("=");
            match split_once(part, eq.as_slice()) {
                Some((_, name)) => {
                    let bare = strip(trim(name), CharClass::Just('"'));
                    Some(slice_to_vec(bare))
                },
                None => None,
            }
        },
        None => None,
    }
}

/// Decodes the one part of a form from the decoded body.
pub fn file_from_form(text: &[char], boundary: &[char]) -> (r: Result<BufferedFile, AppError>)
    ensures
        match r {
            Ok(file) => form_file(text@, boundary@) == Some((file.name@, file.content@)),
            Err(e) => e is Invalid && form_file(text@, boundary@) is None,
        },
{
    let dashes = chars_of("--");
    let mut opening: Vec<char> = Vec::new();
    opening.extend_from_slice(dashes.as_slice());
    opening.extend_from_slice(boundary);
    let mut closing: Vec<char> = Vec::new();
    closing.extend_from_slice(opening.as_slice());
    closing.extend_from_slice(dashes.as_slice());
    assert(opening@ =~= "--"@ + boundary@);
    assert(closing@ =~= "--"@ + boundary@ + "--"@);
    let Some(rest) = strip_prefix(trim(text), opening.as_slice()) else {
        return Err(AppError::invalid("Form body not surrounded with boundary"));
    };
    let Some(inside) = strip_suffix(rest, closing.as_slice()) else {
        return Err(AppError::invalid("Form body not surrounded with boundary"));
    };
    let inside = trim(inside);
    let line_feed = chars_of("\n");
    let Some((disposition, rest)) = split_once(inside, line_feed.as_slice()) else {
        return match file_name_from(inside) {
            Some(_) => Err(AppError::invalid("Content type missing from form body")),
            None => Err(AppError::invalid("Invalid content disposition")),
        };
    };
    let Some(name) = file_name_from(disposition) else {
        return Err(AppError::invalid("Invalid content disposition"));
    };
    let Some((_, data)) = split_once(rest, line_feed.as_slice()) else {
        return Err(AppError::invalid("file data missing from form body"));
    };
    Ok(BufferedFile { name: string_of(name.as_slice()), content: bytes_of(trim(data)) })
}

/// Something that reads the body of a request out of the bytes that
/// follow the headers, given the declared media type and length.
pub trait BodyExtractor {
    /// What the body is read into.
    type Body;

    /// Extracts the body.
    fn extract(stream: &[u8], content_type: String, content_length: usize) -> Result<
        Self::Body,
        AppError,
    >;
}

/// Decodes multipart form bodies.
pub struct MultiPartFormExtractor;

impl MultiPartFormExtractor {
    /// The largest body, in bytes, that is accepted.
    pub const MAX_FILE_SIZE: usize = MAX_FILE_SIZE;
}

impl BodyExtractor for MultiPartFormExtractor {
    type Body = BufferedFile;

    /// Extracts the uploaded file from the bytes that follow the headers.
    ///
    /// The declared length is authoritative: exactly that many bytes of the
    /// stream are the body. A declared length over the limit is refused
    /// whatever the stream holds.
    fn extract(stream: &[u8], content_type: String, content_length: usize) -> (r: Result<
        BufferedFile,
        AppError,
    >)
        ensures
            match r {
                Ok(file) => multipart_file(stream@, content_type@, content_length as nat) == Some(
                    (file.name@, file.content@),
                ),
                Err(e) => e is Invalid && multipart_file(
                    stream@,
                    content_type@,
                    content_length as nat,
                ) is None,
            },
    {
        if content_length > MAX_FILE_SIZE {
            return Err(AppError::invalid("File size exceeds 50MB limit"));
        }
        let declared = chars_of(content_type.as_str());
        let marker = chars_of("boundary=");
        let Some((_, after)) = split_once(declared.as_slice(), marker.as_slice()) else {
            return Err(AppError::invalid("Boundary missing in Content-Type header"));
        };
        let boundary = trim(after);
        if stream.len() < content_length {
            return Err(AppError::invalid("Failed to read form data"));
        }
        let body = slice_to_vec(slice_subrange(stream, 0, content_length));
        assert(body@ =~= stream@.take(content_length as int));
        let Some(decoded) = decode(body) else {
            return Err(AppError::invalid("Failed to parse form data"));
        };
        let text = chars_of(decoded.as_str());
        file_from_form(text.as_slice(), boundary)
    }
}

} // verus!
