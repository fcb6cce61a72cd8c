//! Responses: status, header fields and a description of the body, and
//! their serialisation to the bytes that go on the wire.

use vstd::prelude::*;
use vstd::utf8::encode_utf8;

use crate::common::{probed_file, AppError, BufferedFile, ErrorKind, FileProbe};
use crate::headers::{field_lines, with_field, Headers};
use crate::paths::{extension, extension_of, same};
use crate::strings::{bytes_of, string_of};
use crate::text::{chars_of, decimal, occurs_at, push_decimal, starts_with};

verus! {

/// The status of a response.
#[derive(Clone, Copy, Debug, PartialEq, Eq, Structural)]
pub enum HttpStatus {
    Success,
    SeeOther,
    Forbidden,
    NotFound,
    ServerError,
}

impl HttpStatus {
    /// The status code.
    pub open spec fn code(self) -> nat {
        match self {
            HttpStatus::Success => 200,
            HttpStatus::SeeOther => 303,
            HttpStatus::Forbidden => 403,
            HttpStatus::NotFound => 404,
            HttpStatus::ServerError => 500,
        }
    }

    /// The reason phrase.
    pub open spec fn reason(self) -> Seq<char> {
        match self {
            HttpStatus::Success => "OK"@,
            HttpStatus::SeeOther => "SEE OTHER"@,
            HttpStatus::Forbidden => "FORBIDDEN"@,
            HttpStatus::NotFound => "NOT FOUND"@,
            HttpStatus::ServerError => "SERVER ERROR"@,
        }
    }

    /// Gets the status code that goes into the status line.
    pub fn get_status_code(&self) -> (code: u16)
        ensures
            code == self.code(),
    {
        match self {
            HttpStatus::Success => 200,
            HttpStatus::SeeOther => 303,
            HttpStatus::Forbidden => 403,
            HttpStatus::NotFound => 404,
            HttpStatus::ServerError => 500,
        }
    }

    /// Gets the reason phrase that goes into the status line.
    pub fn get_reason_phrase(&self) -> (phrase: String)
        ensures
            phrase@ == self.reason(),
    {
        match self {
            HttpStatus::Success => "OK".to_owned(),
            HttpStatus::SeeOther => "SEE OTHER".to_owned(),
            HttpStatus::Forbidden => "FORBIDDEN".to_owned(),
            HttpStatus::NotFound => "NOT FOUND".to_owned(),
            HttpStatus::ServerError => "SERVER ERROR".to_owned(),
        }
    }
}

/// The names of the header fields that the server reads or writes.
pub struct HttpHeader;

impl HttpHeader {
    pub const CONTENT_LENGTH: &'static str = "Content-Length";

    pub const CONTENT_TYPE: &'static str = "Content-Type";

    pub const CONTENT_DISPOSITION: &'static str = "Content-Disposition";

    pub const LOCATION: &'static str = "Location";
}

/// Where the bytes of a response body come from.
#[derive(Debug)]
pub enum ResponseBody {
    /// The file at this path.
    File(String),
    /// This text, as an HTML page.
    Text(String),
    /// No body.
    Empty,
}

/// The file that a body description amounts to, given what the file system
/// said of the path of a `File` body: a name and the content.
pub open spec fn body_file(body: ResponseBody, probe: FileProbe) -> Result<
    Option<(Seq<char>, Seq<u8>)>,
    ErrorKind,
> {
    match body {
        ResponseBody::File(path) => match probed_file(path@, probe) {
            Ok(file) => Ok(Some(file)),
            Err(kind) => Err(kind),
        },
        ResponseBody::Text(text) => Ok(Some(("response.html"@, encode_utf8(text@)))),
        ResponseBody::Empty => Ok(None),
    }
}

impl ResponseBody {
    /// Resolves the description to the file that is sent, if any. `probe`
    /// is what the file system said of the path of a `File` body; for the
    /// other bodies it is not looked at.
    pub fn into_file(self, probe: FileProbe) -> (r: Result<Option<BufferedFile>, AppError>)
        ensures
            match r {
                Ok(Some(file)) => body_file(self, probe) == Ok::<_, ErrorKind>(
                    Some((file.name@, file.content@)),
                ),
                Ok(None) => body_file(self, probe) == Ok::<Option<(Seq<char>, Seq<u8>)>, ErrorKind>(
                    None,
                ),
                Err(e) => body_file(self, probe) == Err::<Option<(Seq<char>, Seq<u8>)>, _>(
                    e.kind(),
                ),
            },
    {
        match self {
            ResponseBody::File(path) => {
                match BufferedFile::try_from(path.as_str(), probe) {
                    Ok(file) => Ok(Some(file)),
                    Err(e) => Err(e),
                }
            },
            ResponseBody::Text(text) => Ok(
                Some(
                    BufferedFile {
                        name: "response.html".to_owned(),
                        content: text.as_str().as_bytes_vec(),
                    },
                ),
            ),
            ResponseBody::Empty => Ok(None),
        }
    }
}

/// The media type that goes with the extension of a file name.
pub open spec fn media_type(file_path: Seq<char>) -> Seq<char> {
    match extension(file_path) {
        Some(ext) => if ext == "html"@ {
            "text/html; charset=UTF-8"@
        } else if ext == "css"@ {
            "text/css"@
        } else if ext == "js"@ {
            "application/javascript"@
        } else if ext == "png"@ {
            "image/png"@
        } else if ext == "jpg"@ || ext == "jpeg"@ {
            "image/jpeg"@
        } else if ext == "gif"@ {
            "image/gif"@
        } else if ext == "pdf"@ {
            "application/pdf"@
        } else if ext == "json"@ {
            "application/json"@
        } else if ext == "txt"@ {
            "text/plain"@
        } else {
            "application/octet-stream"@
        },
        None => "application/octet-stream"@,
    }
}

/// Tests whether `ext` is the given extension.
fn is_ext(ext: &Vec<char>, wanted: &str) -> (r: bool)
    ensures
        r == (ext@ == wanted@),
{
    let w = chars_of(wanted);
    same(ext.as_slice(), w.as_slice())
}

/// The status line of a response.
pub open spec fn status_line(version: Seq<char>, status: HttpStatus) -> Seq<char> {
    version + seq![' '] + decimal(status.code()) + seq![' '] + status.reason() + seq!['\r', '\n']
}

/// The header fields that are sent: those of the response, with the
/// computed ones set over them. With a file, its length and media type, and
/// for all but HTML the disposition that names it; without one, length 0.
pub open spec fn sent_fields(
    fields: Seq<(Seq<char>, Seq<char>)>,
    file: Option<(Seq<char>, Seq<u8>)>,
) -> Seq<(Seq<char>, Seq<char>)> {
    match file {
        Some((name, content)) => {
            let sized = with_field(fields, "Content-Length"@, decimal(content.len()));
            let typed = with_field(sized, "Content-Type"@, media_type(name));
            if occurs_at(media_type(name), "text/html"@, 0) {
                typed
            } else {
                with_field(
                    typed,
                    "Content-Disposition"@,
                    "inline; filename=\""@ + name + seq!['"'],
                )
            }
        },
        None => with_field(fields, "Content-Length"@, decimal(0)),
    }
}

/// Everything before the body: status line, field lines, empty line.
pub open spec fn head_text(
    version: Seq<char>,
    status: HttpStatus,
    fields: Seq<(Seq<char>, Seq<char>)>,
) -> Seq<char> {
    status_line(version, status) + field_lines(fields) + seq!['\r', '\n']
}

/// The bytes of a response on the wire: the head in UTF-8, then the
/// content of the file, if there is one.
pub open spec fn wire(
    version: Seq<char>,
    status: HttpStatus,
    fields: Seq<(Seq<char>, Seq<char>)>,
    file: Option<(Seq<char>, Seq<u8>)>,
) -> Seq<u8> {
    encode_utf8(head_text(version, status, sent_fields(fields, file))) + match file {
        Some((_, content)) => content,
        None => Seq::empty(),
    }
}

/// Collects the parts of a response one by one.
pub struct ResponseBuilder {
    pub status: Option<HttpStatus>,
    pub headers: Headers,
    pub body: Option<ResponseBody>,
}

/// A response: what is sent back for one request.
#[derive(Debug)]
pub struct Response {
    pub http_version: String,
    pub status: HttpStatus,
    pub headers: Headers,
    pub body: ResponseBody,
}

impl ResponseBuilder {
    /// A builder with nothing set.
    pub fn new() -> (b: ResponseBuilder)
        ensures
            b.status is None,
            b.body is None,
            b.headers@ == Seq::<(Seq<char>, Seq<char>)>::empty(),
    {
        ResponseBuilder { status: None, headers: Headers::new(), body: None }
    }

    /// Sets the status.
    pub fn status(self, status: HttpStatus) -> (b: ResponseBuilder)
        ensures
            b.status == Some(status),
            b.headers == self.headers,
            b.body == self.body,
    {
        let mut b = self;
        b.status = Some(status);
        b
    }

    /// Sets one header field.
    pub fn header(self, name: &str, value: &str) -> (b: ResponseBuilder)
        ensures
            b.status == self.status,
            b.headers@ == with_field(self.headers@, name@, value@),
            b.body == self.body,
    {
        let ResponseBuilder { status, headers, body } = self;
        let mut headers = headers;
        headers.insert(name.to_owned(), value.to_owned());
        ResponseBuilder { status, headers, body }
    }

    /// Sets the body.
    pub fn body(self, body: ResponseBody) -> (b: ResponseBuilder)
        ensures
            b.status == self.status,
            b.headers == self.headers,
            b.body == Some(body),
    {
        let mut b = self;
        b.body = Some(body);
        b
    }

    /// Builds the response; a status that was not set is `Success`, a body that
    /// was not set is empty.
    pub fn build(self) -> (r: Response)
        ensures
            r.http_version@ == "HTTP/1.1"@,
            r.status == match self.status {
                Some(s) => s,
                None => HttpStatus::Success,
            },
            r.headers == self.headers,
            r.body == match self.body {
                Some(b) => b,
                None => ResponseBody::Empty,
            },
    {
        let ResponseBuilder { status, headers, body } = self;
        let status = match status {
            Some(s) => s,
            None => HttpStatus::Success,
        };
        let body = match body {
            Some(b) => b,
            None => ResponseBody::Empty,
        };
        Response::new(status, headers, body)
    }
}

impl Response {
    /// A builder with nothing set.
    pub fn builder() -> (b: ResponseBuilder)
        ensures
            b.status is None,
            b.body is None,
            b.headers@ == Seq::<(Seq<char>, Seq<char>)>::empty(),
    {
        ResponseBuilder::new()
    }

    /// A response of version HTTP/1.1 with the given parts.
    pub fn new(status: HttpStatus, headers: Headers, body: ResponseBody) -> (r: Response)
        ensures
            r.http_version@ == "HTTP/1.1"@,
            r.status == status,
            r.headers == headers,
            r.body == body,
    {
        Response { http_version: "HTTP/1.1".to_owned(), status, headers, body }
    }

    /// Gets the media type that goes with the extension of a file name.
    pub fn get_content_type(file_path: &str) -> (r: &'static str)
        ensures
            r@ == media_type(file_path@),
    {
        let path = chars_of(file_path);
        match extension_of(path.as_slice()) {
            Some(ext) => if is_ext(&ext, "html") {
                "text/html; charset=UTF-8"
            } else if is_ext(&ext, "css") {
                "text/css"
            } else if is_ext(&ext, "js") {
                "application/javascript"
            } else if is_ext(&ext, "png") {
                "image/png"
            } else if is_ext(&ext, "jpg") || is_ext(&ext, "jpeg") {
                "image/jpeg"
            } else if is_ext(&ext, "gif") {
                "image/gif"
            } else if is_ext(&ext, "pdf") {
                "application/pdf"
            } else if is_ext(&ext, "json") {
                "application/json"
            } else if is_ext(&ext, "txt") {
                "text/plain"
            } else {
                "application/octet-stream"
            },
            None => "application/octet-stream",
        }
    }

    /// The head of the response as text, with the fields as they stand:
    /// status line, field lines and the empty line.
    pub fn to_text(&self) -> (r: String)
        ensures
            r@ == head_text(self.http_version@, self.status, self.headers@),
    {
        let head = write_head(self.http_version.as_str(), self.status, &self.headers);
        string_of(head.as_slice())
    }

    /// The path of the file that the body names, if it names one: the
    /// path to ask the file system about before the response is sent.
    pub fn file_path(&self) -> (r: Option<&String>)
        ensures
            r == match self.body {
                ResponseBody::File(path) => Some(&path),
                _ => None,
            },
    {
        match &self.body {
            ResponseBody::File(path) => Some(path),
            _ => None,
        }
    }

    /// Serialises the response. `probe` is what the file system said of
    /// the path of a `File` body; for the other bodies it is not looked at.
    ///
    /// Fails exactly where the body does not resolve to a file, with the
    /// error of the resolution.
    pub fn to_bytes(self, probe: FileProbe) -> (r: Result<Vec<u8>, AppError>)
        ensures
            match r {
                Ok(bytes) => body_file(self.body, probe) is Ok && bytes@ == wire(
                    self.http_version@,
                    self.status,
                    self.headers@,
                    body_file(self.body, probe)->Ok_0,
                ),
                Err(e) => body_file(self.body, probe) == Err::<Option<(Seq<char>, Seq<u8>)>, _>(
                    e.kind(),
                ),
            },
    {
        let Response { http_version, status, headers, body } = self;
        let file = match body.into_file(probe) {
            Ok(file) => file,
            Err(e) => {
                return Err(e);
            },
        };
        let mut headers = headers;
        let mut content: Vec<u8> = Vec::new();
        match file {
            Some(file) => {
                let BufferedFile { name, content: bytes } = file;
                let kind = Response::get_content_type(name.as_str());
                let mut length: Vec<char> = Vec::new();
                push_decimal(bytes.len() as u64, &mut length);
                assert(length@ =~= decimal(bytes@.len()));
                headers.insert(HttpHeader::CONTENT_LENGTH.to_owned(), string_of(length.as_slice()));
                headers.insert(HttpHeader::CONTENT_TYPE.to_owned(), kind.to_owned());
                let kind_chars = chars_of(kind);
                let html = chars_of("text/html");
                if !starts_with(kind_chars.as_slice(), html.as_slice()) {
                    let mut disposition = chars_of("inline; filename=\"");
                    let name_chars = chars_of(name.as_str());
                    disposition.extend_from_slice(name_chars.as_slice());
                    disposition.push('"');
                    assert(disposition@ =~= "inline; filename=\""@ + name@ + seq!['"']);
                    headers.insert(
                        HttpHeader::CONTENT_DISPOSITION.to_owned(),
                        string_of(disposition.as_slice()),
                    );
                }
                content = bytes;
            },
            None => {
                let mut length: Vec<char> = Vec::new();
                push_decimal(0, &mut length);
                assert(length@ =~= decimal(0));
                headers.insert(HttpHeader::CONTENT_LENGTH.to_owned(), string_of(length.as_slice()));
            },
        }
        let ghost file_view = body_file(self.body, probe)->Ok_0;
        assert(headers@ == sent_fields(self.headers@, file_view));
        let head = write_head(http_version.as_str(), status, &headers);
        let mut bytes = bytes_of(head.as_slice());
        bytes.append(&mut content);
        Ok(bytes)
    }
}

/// Writes the status line, the field lines and the empty line.
pub fn write_head(version: &str, status: HttpStatus, headers: &Headers) -> (head: Vec<char>)
    ensures
        head@ == head_text(version@, status, headers@),
{
    let mut head = chars_of(version);
    head.push(' ');
    push_decimal(status.get_status_code() as u64, &mut head);
    head.push(' ');
    let reason = chars_of(status.get_reason_phrase().as_str());
    head.extend_from_slice(reason.as_slice());
    head.push('\r');
    head.push('\n');
    assert(head@ =~= status_line(version@, status));
    headers.write_lines(&mut head);
    head.push('\r');
    head.push('\n');
    assert(head@ =~= head_text(version@, status, headers@));
    head
}

} // verus!
