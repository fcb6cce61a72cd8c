//! Requests: the method, the request line, the header fields and the body,
//! read out of the bytes that a client sent.

use vstd::prelude::*;
use vstd::slice::{slice_subrange, slice_to_vec};
use vstd::utf8::{decode_utf8, valid_utf8};

use crate::common::{file_text, AppError, BufferedFile, ErrorKind};
use crate::headers::{field_lines, value_of, with_field, Headers};
use crate::multipart::{
    boundary_of, multipart_file, BodyExtractor, MultiPartFormExtractor, MAX_FILE_SIZE,
};
use crate::paths::same;
use crate::strings::{
    ascii_lower, ascii_upper, decode, lower, lowercase, push_lowercase, push_upper, string_of,
    to_uppercase, upper, uppercase,
};
use crate::text::{
    chars_of, count_leading, find, first_match, is_whitespace, leading_run, lemma_first_match_is,
    lemma_occurs_single,
    lemma_first_match_bounds, lemma_first_match_none, lemma_leading_run_bounds, lemma_leading_run_is, occurs_at,
    parse_usize, split_at_first, split_once, starts_with, strip_leading, trim, trimmed,
    unsigned_number, without_leading, CharClass,
};

verus! {

/// The methods of HTTP.
#[derive(Clone, Copy, Debug, PartialEq, Eq, Structural)]
pub enum HttpMethod {
    Get,
    Post,
    Put,
    Patch,
    Delete,
    Head,
    Options,
    Trace,
    Connect,
}

/// The method that a token names, whatever the case of its letters.
pub open spec fn method_named(token: Seq<char>) -> Option<HttpMethod> {
    let name = uppercase(token);
    if name == "GET"@ {
        Some(HttpMethod::Get)
    } else if name == "POST"@ {
        Some(HttpMethod::Post)
    } else if name == "PUT"@ {
        Some(HttpMethod::Put)
    } else if name == "PATCH"@ {
        Some(HttpMethod::Patch)
    } else if name == "DELETE"@ {
        Some(HttpMethod::Delete)
    } else if name == "HEAD"@ {
        Some(HttpMethod::Head)
    } else if name == "OPTIONS"@ {
        Some(HttpMethod::Options)
    } else if name == "TRACE"@ {
        Some(HttpMethod::Trace)
    } else if name == "CONNECT"@ {
        Some(HttpMethod::Connect)
    } else {
        None
    }
}

/// Tests whether `text` is the given word.
fn is_word(text: &Vec<char>, word: &str) -> (r: bool)
    ensures
        r == (text@ == word@),
{
    let w = chars_of(word);
    same(text.as_slice(), w.as_slice())
}

impl HttpMethod {
    /// The name of the method, in upper case.
    pub open spec fn name(self) -> Seq<char> {
        match self {
            HttpMethod::Get => "GET"@,
            HttpMethod::Post => "POST"@,
            HttpMethod::Put => "PUT"@,
            HttpMethod::Patch => "PATCH"@,
            HttpMethod::Delete => "DELETE"@,
            HttpMethod::Head => "HEAD"@,
            HttpMethod::Options => "OPTIONS"@,
            HttpMethod::Trace => "TRACE"@,
            HttpMethod::Connect => "CONNECT"@,
        }
    }

    /// The name of the method, in upper case.
    pub fn as_str(&self) -> (r: &'static str)
        ensures
            r@ == self.name(),
    {
        match self {
            HttpMethod::Get => "GET",
            HttpMethod::Post => "POST",
            HttpMethod::Put => "PUT",
            HttpMethod::Patch => "PATCH",
            HttpMethod::Delete => "DELETE",
            HttpMethod::Head => "HEAD",
            HttpMethod::Options => "OPTIONS",
            HttpMethod::Trace => "TRACE",
            HttpMethod::Connect => "CONNECT",
        }
    }

    /// Reads a method out of its name; the case of the letters does not
    /// matter. Any other text is refused as invalid.
    pub fn try_from(value: String) -> (r: Result<HttpMethod, AppError>)
        ensures
            match r {
                Ok(method) => method_named(value@) == Some(method),
                Err(e) => e is Invalid && method_named(value@) is None,
            },
    {
        let text = chars_of(value.as_str());
        match method_of(text.as_slice()) {
            Some(method) => Ok(method),
            None => Err(AppError::invalid_about("Unknown method: ", value.as_str())),
        }
    }
}

/// Reads a method out of its name.
pub fn method_of(token: &[char]) -> (r: Option<HttpMethod>)
    ensures
        r == method_named(token@),
{
    let name = to_uppercase(token);
    if is_word(&name, "GET") {
        Some(HttpMethod::Get)
    } else if is_word(&name, "POST") {
        Some(HttpMethod::Post)
    } else if is_word(&name, "PUT") {
        Some(HttpMethod::Put)
    } else if is_word(&name, "PATCH") {
        Some(HttpMethod::Patch)
    } else if is_word(&name, "DELETE") {
        Some(HttpMethod::Delete)
    } else if is_word(&name, "HEAD") {
        Some(HttpMethod::Head)
    } else if is_word(&name, "OPTIONS") {
        Some(HttpMethod::Options)
    } else if is_word(&name, "TRACE") {
        Some(HttpMethod::Trace)
    } else if is_word(&name, "CONNECT") {
        Some(HttpMethod::Connect)
    } else {
        None
    }
}

/// The tokens of a text: its maximal runs of characters that are not white
/// space, in order.
pub open spec fn tokens(s: Seq<char>) -> Seq<Seq<char>>
    decreases s.len(),
{
    let rest = without_leading(s, CharClass::Space);
    let n = leading_run(rest, CharClass::Solid);
    if 0 < n <= rest.len() <= s.len() {
        seq![rest.take(n as int)] + tokens(rest.skip(n as int))
    } else {
        Seq::empty()
    }
}

/// Takes the first token off a text.
pub fn next_token<'a>(s: &'a [char]) -> (r: Option<(&'a [char], &'a [char])>)
    ensures
        match r {
            Some((token, rest)) => tokens(s@) == seq![token@] + tokens(rest@) && rest@.len()
                < s@.len(),
            None => tokens(s@) == Seq::<Seq<char>>::empty(),
        },
{
    let rest = strip_leading(s, CharClass::Space);
    let n = count_leading(rest, CharClass::Solid);
    let len = rest.len();
    proof {
        lemma_leading_run_bounds(s@, CharClass::Space);
    }
    if n == 0 {
        None
    } else {
        Some((slice_subrange(rest, 0, n), slice_subrange(rest, n, len)))
    }
}

/// What a request line says: the method named by its first token, and its
/// second and third token as path and version. `None` where it has fewer
/// than three tokens or the first names no method.
pub open spec fn request_line(line: Seq<char>) -> Option<(HttpMethod, Seq<char>, Seq<char>)> {
    let t = tokens(line);
    if t.len() >= 3 {
        match method_named(t[0]) {
            Some(method) => Some((method, t[1], t[2])),
            None => None,
        }
    } else {
        None
    }
}

/// A word with its first character in upper case and the others in lower
/// case.
pub open spec fn capitalised(word: Seq<char>) -> Seq<char> {
    if word.len() == 0 {
        word
    } else {
        upper(word[0]) + lowercase(word.skip(1))
    }
}

/// A header name in header case: each of its words between `-`
/// capitalised, whatever the case in which the client wrote it.
pub open spec fn header_case(s: Seq<char>) -> Seq<char>
    decreases s.len(),
{
    match first_match(s, seq!['-']) {
        Some(i) => if 0 <= i < s.len() {
            capitalised(s.take(i)) + seq!['-'] + header_case(s.skip(i + 1))
        } else {
            capitalised(s)
        },
        None => capitalised(s),
    }
}

/// Appends `word` with its first character in upper case and the others
/// in lower case.
fn push_capitalised(word: &[char], out: &mut Vec<char>)
    ensures
        final(out)@ == old(out)@ + capitalised(word@),
{
    if word.len() > 0 {
        push_upper(word[0], out);
        let n = word.len();
        push_lowercase(slice_subrange(word, 1, n), out);
        assert(out@ =~= old(out)@ + capitalised(word@));
    } else {
        assert(out@ =~= old(out)@ + capitalised(word@));
    }
}

/// What a header line says: the name before the first `:`, trimmed and in
/// header case, and the value after it, trimmed. `None` without a `:`.
pub open spec fn header_field(line: Seq<char>) -> Option<(Seq<char>, Seq<char>)> {
    match split_at_first(line, seq![':']) {
        Some((name, value)) => Some((header_case(trimmed(name)), trimmed(value))),
        None => None,
    }
}

/// The line that ends the header fields.
pub open spec fn blank_line() -> Seq<char> {
    seq!['\r', '\n']
}

/// Reads the parts of a request line.
pub fn request_line_of(line: &[char]) -> (r: Option<(HttpMethod, Vec<char>, Vec<char>)>)
    ensures
        match r {
            Some((method, path, version)) => request_line(line@) == Some(
                (method, path@, version@),
            ),
            None => request_line(line@) is None,
        },
{
    let Some((first, rest)) = next_token(line) else {
        return None;
    };
    let Some((second, rest)) = next_token(rest) else {
        return None;
    };
    let Some((third, _)) = next_token(rest) else {
        return None;
    };
    match method_of(first) {
        Some(method) => Some((method, slice_to_vec(second), slice_to_vec(third))),
        None => None,
    }
}

/// Writes a header name in header case.
pub fn header_case_of(s: &[char]) -> (out: Vec<char>)
    ensures
        out@ == header_case(s@),
{
    let dash: Vec<char> = vec!['-'];
    assert(dash@ =~= seq!['-']);
    let mut out: Vec<char> = Vec::new();
    let mut rest: &[char] = s;
    assert(out@ + header_case(rest@) =~= header_case(s@));
    loop
        invariant_except_break
            out@ + header_case(rest@) == header_case(s@),
        invariant
            dash@ == seq!['-'],
        ensures
            out@ == header_case(s@),
        decreases rest@.len(),
    {
        let n = rest.len();
        let ghost before = out@;
        let ghost old_rest = rest@;
        match find(rest, dash.as_slice()) {
            Some(i) => {
                push_capitalised(slice_subrange(rest, 0, i), &mut out);
                out.push('-');
                rest = slice_subrange(rest, i + 1, n);
                proof {
                    assert(rest@ =~= old_rest.skip(i + 1));
                    assert(out@ + header_case(rest@) =~= before + header_case(old_rest));
                }
            },
            None => {
                push_capitalised(rest, &mut out);
                break ;
            },
        }
    }
    out
}

/// Reads the name and the value of a header line.
pub fn header_field_of(line: &[char]) -> (r: Option<(Vec<char>, Vec<char>)>)
    ensures
        match r {
            Some((name, value)) => header_field(line@) == Some((name@, value@)),
            None => header_field(line@) is None,
        },
{
    let colon: Vec<char> = vec![':'];
    assert(colon@ =~= seq![':']);
    match split_once(line, colon.as_slice()) {
        Some((name, value)) => Some((header_case_of(trim(name)), slice_to_vec(trim(value)))),
        None => None,
    }
}

/// Tests whether a line is the one that ends the header fields.
pub fn is_blank_line(line: &[char]) -> (r: bool)
    ensures
        r == (line@ == blank_line()),
{
    let r = line.len() == 2 && line[0] == '\r' && line[1] == '\n';
    proof {
        if r {
            assert(line@ =~= blank_line());
        } else if line@.len() == 2 {
            assert(blank_line()[0] == '\r' && blank_line()[1] == '\n');
        }
    }
    r
}

/// The length of the first line of a stream: up to and with its first line
/// feed, or all of it where it holds none.
pub open spec fn line_length(stream: Seq<u8>) -> int {
    match first_match(stream, seq![10u8]) {
        Some(i) => i + 1,
        None => stream.len() as int,
    }
}

/// Whether the first line of a stream is ended by a line feed.
pub open spec fn line_ended(stream: Seq<u8>) -> bool {
    first_match(stream, seq![10u8]) is Some
}

/// Cuts the first line off a stream; tells whether a line feed ended it.
pub fn take_line<'a>(stream: &'a [u8]) -> (r: (&'a [u8], &'a [u8], bool))
    ensures
        r.0@ == stream@.take(line_length(stream@)),
        r.1@ == stream@.skip(line_length(stream@)),
        r.2 == line_ended(stream@),
        0 <= line_length(stream@) <= stream@.len(),
        stream@.len() > 0 ==> line_length(stream@) > 0,
        r.1@.len() == stream@.len() - line_length(stream@),
{
    let n = stream.len();
    let ghost feed = seq![10u8];
    let mut i: usize = 0;
    while i < n
        invariant
            i <= n,
            n == stream@.len(),
            feed == seq![10u8],
            forall|j: int| 0 <= j < i ==> !occurs_at(stream@, feed, j),
        decreases n - i,
    {
        if stream[i] == 10 {
            proof {
                assert(stream@.subrange(i as int, i + 1) =~= feed);
                lemma_first_match_is(stream@, feed, 0, i as int);
            }
            return (slice_subrange(stream, 0, i + 1), slice_subrange(stream, i + 1, n), true);
        }
        proof {
            if occurs_at(stream@, feed, i as int) {
                assert(stream@.subrange(i as int, i + 1)[0] == stream@[i as int]);
                assert(feed[0] == 10u8);
            }
        }
        i += 1;
    }
    proof {
        assert forall|j: int| 0 <= j implies !occurs_at(stream@, feed, j) by {}
        lemma_first_match_none(stream@, feed, 0);
    }
    (stream, slice_subrange(stream, n, n), false)
}

/// Decodes a line of bytes to its characters.
pub fn line_text(line: &[u8]) -> (r: Option<Vec<char>>)
    ensures
        r is Some <==> valid_utf8(line@),
        r is Some ==> r->0@ == decode_utf8(line@),
{
    match decode(slice_to_vec(line)) {
        Some(text) => Some(chars_of(text.as_str())),
        None => None,
    }
}

/// The header fields that a stream begins with, set one after the other
/// over `seen`, and the stream that follows the blank line. `None` where a
/// line is not UTF-8 or has no `:`, or the stream ends before a blank line.
pub open spec fn stream_fields(stream: Seq<u8>, seen: Seq<(Seq<char>, Seq<char>)>) -> Option<
    (Seq<(Seq<char>, Seq<char>)>, Seq<u8>),
>
    decreases stream.len(),
{
    let n = line_length(stream);
    let line = stream.take(n);
    if !(0 < n <= stream.len()) || !valid_utf8(line) {
        None
    } else if decode_utf8(line) == blank_line() {
        Some((seen, stream.skip(n)))
    } else {
        match header_field(decode_utf8(line)) {
            Some((name, value)) => stream_fields(stream.skip(n), with_field(seen, name, value)),
            None => None,
        }
    }
}

/// The body that the header fields declare: the media type and the length
/// of a multipart body, or none. There is none where the length or the
/// type is missing, or the length is 0. Where both are there, it is an
/// error that the length is no number, or that the type is not multipart.
pub open spec fn declared_body(fields: Seq<(Seq<char>, Seq<char>)>) -> Result<
    Option<(Seq<char>, nat)>,
    ErrorKind,
> {
    match value_of(fields, "Content-Length"@) {
        Some(length) => match value_of(fields, "Content-Type"@) {
            Some(kind) => match unsigned_number(length) {
                Some(n) => if n == 0 {
                    Ok(None)
                } else if occurs_at(kind, "multipart/form-data"@, 0) {
                    Ok(Some((kind, n)))
                } else {
                    Err(ErrorKind::Invalid)
                },
                None => Err(ErrorKind::Invalid),
            },
            None => Ok(None),
        },
        None => Ok(None),
    }
}

/// The body of a request, given its header fields and the stream after
/// them: the uploaded file, or none.
pub open spec fn request_body(stream: Seq<u8>, fields: Seq<(Seq<char>, Seq<char>)>) -> Result<
    Option<(Seq<char>, Seq<u8>)>,
    ErrorKind,
> {
    match declared_body(fields) {
        Ok(Some((kind, n))) => match multipart_file(stream, kind, n) {
            Some(file) => Ok(Some(file)),
            None => Err(ErrorKind::Invalid),
        },
        Ok(None) => Ok(None),
        Err(kind) => Err(kind),
    }
}

/// What a request holds.
pub struct RequestModel {
    pub method: HttpMethod,
    pub path: Seq<char>,
    pub version: Seq<char>,
    pub fields: Seq<(Seq<char>, Seq<char>)>,
    pub body: Option<(Seq<char>, Seq<u8>)>,
}

/// The request that a stream of bytes holds.
///
/// The first line is the request line; a failure to decode it counts as a
/// failure to read. The header fields follow, up to a blank line. The body
/// is what the fields declare.
pub open spec fn parsed_request(stream: Seq<u8>) -> Result<RequestModel, ErrorKind> {
    let n = line_length(stream);
    let first = stream.take(n);
    if !valid_utf8(first) {
        Err(ErrorKind::IO)
    } else {
        match request_line(decode_utf8(first)) {
            Some((method, path, version)) => match stream_fields(stream.skip(n), Seq::empty()) {
                Some((fields, rest)) => match request_body(rest, fields) {
                    Ok(body) => Ok(RequestModel { method, path, version, fields, body }),
                    Err(kind) => Err(kind),
                },
                None => Err(ErrorKind::Invalid),
            },
            None => Err(ErrorKind::Invalid),
        }
    }
}

/// The body of a request.
#[derive(Debug)]
pub enum RequestBody {
    /// The file of a multipart form.
    Multipart(BufferedFile),
    /// No body.
    Empty,
}

impl RequestBody {
    /// The name and content of the file, if there is one.
    pub open spec fn model(self) -> Option<(Seq<char>, Seq<u8>)> {
        match self {
            RequestBody::Multipart(file) => Some((file.name@, file.content@)),
            RequestBody::Empty => None,
        }
    }

    /// The body as text for a reader.
    pub fn to_text(&self) -> (r: String)
        ensures
            r@ == match self.model() {
                Some((name, content)) => file_text(name, content),
                None => "Empty"@,
            },
    {
        match self {
            RequestBody::Multipart(file) => file.to_text(),
            RequestBody::Empty => "Empty".to_owned(),
        }
    }
}

/// A request as text for a reader: the request line and the field lines.
pub open spec fn request_text(request: RequestModel) -> Seq<char> {
    request.method.name() + seq![' '] + request.path + seq![' '] + request.version + seq![
        '\r',
        '\n',
    ] + field_lines(request.fields)
}

/// A request as the server has read it.
#[derive(Debug)]
pub struct Request {
    pub path: String,
    pub method: HttpMethod,
    pub http_version: String,
    pub headers: Headers,
    pub body: RequestBody,
}

impl View for Request {
    type V = RequestModel;

    open spec fn view(&self) -> RequestModel {
        RequestModel {
            method: self.method,
            path: self.path@,
            version: self.http_version@,
            fields: self.headers@,
            body: self.body.model(),
        }
    }
}

impl Request {
    /// The request as text for a reader: the request line and the field
    /// lines.
    pub fn to_text(&self) -> (r: String)
        ensures
            r@ == request_text(self@),
    {
        let mut out = chars_of(self.method.as_str());
        out.push(' ');
        let path = chars_of(self.path.as_str());
        out.extend_from_slice(path.as_slice());
        out.push(' ');
        let version = chars_of(self.http_version.as_str());
        out.extend_from_slice(version.as_slice());
        out.push('\r');
        out.push('\n');
        assert(out@ =~= self.method.name() + seq![' '] + self.path@ + seq![' ']
            + self.http_version@ + seq!['\r', '\n']);
        self.headers.write_lines(&mut out);
        string_of(out.as_slice())
    }

    /// Extracts method, path and version from the request line.
    ///
    /// Succeeds exactly where the line has three tokens or more and the
    /// first names a method.
    pub fn extract_request_line(request_line: String) -> (r: Result<
        (HttpMethod, String, String),
        AppError,
    >)
        ensures
            match r {
                Ok((method, path, version)) => self::request_line(request_line@) == Some(
                    (method, path@, version@),
                ),
                Err(e) => e is Invalid && self::request_line(request_line@) is None,
            },
    {
        let line = chars_of(request_line.as_str());
        let Some((first, rest)) = next_token(line.as_slice()) else {
            return Err(AppError::invalid("Could not find method"));
        };
        let Some(method) = method_of(first) else {
            return Err(
                AppError::invalid_about("Unknown method: ", string_of(first).as_str()),
            );
        };
        let Some((path, rest)) = next_token(rest) else {
            return Err(AppError::invalid("Could not find path"));
        };
        let Some((version, _)) = next_token(rest) else {
            return Err(AppError::invalid("Could not find http_version"));
        };
        Ok((method, string_of(path), string_of(version)))
    }

    /// Writes a header name in header case.
    pub fn to_header_case(s: &str) -> (r: String)
        ensures
            r@ == header_case(s@),
    {
        let name = chars_of(s);
        let cased = header_case_of(name.as_slice());
        string_of(cased.as_slice())
    }

    /// Extracts the header fields that a stream begins with, and tells how
    /// many bytes they took, the blank line included.
    pub fn extract_headers(stream: &[u8]) -> (r: Result<(Headers, usize), AppError>)
        ensures
            match r {
                Ok((headers, used)) => used <= stream@.len() && stream_fields(
                    stream@,
                    Seq::empty(),
                ) == Some((headers@, stream@.skip(used as int))),
                Err(e) => e is Invalid && stream_fields(stream@, Seq::empty()) is None,
            },
    {
        let mut headers = Headers::new();
        let mut rest: &[u8] = stream;
        let mut used: usize = 0;
        let total = stream.len();
        assert(stream@.skip(0) =~= stream@);
        loop
            invariant
                used <= stream@.len(),
                total == stream@.len(),
                rest@ == stream@.skip(used as int),
                stream_fields(rest@, headers@) == stream_fields(stream@, Seq::empty()),
            decreases rest@.len(),
        {
            let (line, after, _) = take_line(rest);
            if line.len() == 0 {
                return Err(AppError::invalid("Error parsing headers"));
            }
            let Some(text) = line_text(line) else {
                return Err(AppError::invalid("Error reading headers"));
            };
            if is_blank_line(text.as_slice()) {
                proof {
                    assert(after@ =~= stream@.skip(used + line@.len()));
                }
                return Ok((headers, used + line.len()));
            }
            let Some((name, value)) = header_field_of(text.as_slice()) else {
                return Err(AppError::invalid("Error parsing headers"));
            };
            headers.insert(string_of(name.as_slice()), string_of(value.as_slice()));
            proof {
                assert(after@ =~= stream@.skip(used + line@.len()));
            }
            used = used + line.len();
            rest = after;
        }
    }

    /// Reads out of the header fields which body is declared.
    pub fn declared(headers: &Headers) -> (r: Result<Option<(String, usize)>, AppError>)
        ensures
            match r {
                Ok(Some((kind, n))) => declared_body(headers@) == Ok::<_, ErrorKind>(
                    Some((kind@, n as nat)),
                ),
                Ok(None) => declared_body(headers@) == Ok::<Option<(Seq<char>, nat)>, ErrorKind>(
                    None,
                ),
                Err(e) => e is Invalid && declared_body(headers@) == Err::<
                    Option<(Seq<char>, nat)>,
                    _,
                >(ErrorKind::Invalid),
            },
    {
        let Some(length) = headers.get("Content-Length") else {
            return Ok(None);
        };
        let Some(kind) = headers.get("Content-Type") else {
            return Ok(None);
        };
        let digits = chars_of(length.as_str());
        let Some(n) = parse_usize(digits.as_slice()) else {
            return Err(AppError::invalid("Content-Length request header is not a number"));
        };
        if n == 0 {
            return Ok(None);
        }
        let kind_chars = chars_of(kind.as_str());
        let multipart = chars_of("multipart/form-data");
        if starts_with(kind_chars.as_slice(), multipart.as_slice()) {
            Ok(Some((kind.clone(), n)))
        } else {
            Err(AppError::invalid_about("Unsupported content type: ", kind.as_str()))
        }
    }

    /// Extracts the body from the stream that follows the header fields.
    ///
    /// Without a `Content-Type` or without a `Content-Length`, and with a
    /// `Content-Length` of 0, the body is empty and the stream is not
    /// looked at.
    pub fn extract_body(stream: &[u8], headers: &Headers) -> (r: Result<RequestBody, AppError>)
        ensures
            match r {
                Ok(body) => request_body(stream@, headers@) == Ok::<_, ErrorKind>(body.model()),
                Err(e) => e is Invalid && request_body(stream@, headers@) == Err::<
                    Option<(Seq<char>, Seq<u8>)>,
                    _,
                >(ErrorKind::Invalid),
            },
    {
        match Request::declared(headers) {
            Ok(Some((kind, n))) => match MultiPartFormExtractor::extract(stream, kind, n) {
                Ok(file) => Ok(RequestBody::Multipart(file)),
                Err(e) => Err(e),
            },
            Ok(None) => Ok(RequestBody::Empty),
            Err(e) => Err(e),
        }
    }

    /// Reads a request out of the bytes that a client sent.
    ///
    /// All or nothing: the result is the whole request or an error, which
    /// is of kind `IO` where the request line cannot be decoded and
    /// `Invalid` for every other fault.
    pub fn try_new(stream: &[u8]) -> (r: Result<Request, AppError>)
        ensures
            match r {
                Ok(request) => parsed_request(stream@) == Ok::<_, ErrorKind>(request@),
                Err(e) => parsed_request(stream@) == Err::<RequestModel, _>(e.kind()),
            },
    {
        let (first, rest, _) = take_line(stream);
        let Some(line) = line_text(first) else {
            return Err(AppError::IO("Error reading request".to_owned()));
        };
        let Some((method, path, version)) = request_line_of(line.as_slice()) else {
            return Err(AppError::invalid("Could not find method, path and http_version"));
        };
        let (headers, used) = match Request::extract_headers(rest) {
            Ok(found) => found,
            Err(e) => {
                return Err(e);
            },
        };
        let n = rest.len();
        let body = match Request::extract_body(slice_subrange(rest, used, n), &headers) {
            Ok(body) => body,
            Err(e) => {
                return Err(e);
            },
        };
        Ok(
            Request {
                path: string_of(path.as_slice()),
                method,
                http_version: string_of(version.as_slice()),
                headers,
                body,
            },
        )
    }
}

/// What a reader has to fetch next for a request.
#[derive(Clone, Copy, Debug, PartialEq, Eq, Structural)]
pub enum Pending {
    /// One more line: bytes up to and with the next line feed.
    Line,
    /// Exactly this many bytes more.
    Bytes(usize),
    /// Nothing: what was received decides the request.
    Nothing,
}

/// What is to be fetched once the header fields are through: the part of
/// the declared body that has not come yet, unless the body is refused for
/// its length or for want of a boundary before any of it is read.
pub open spec fn pending_body(stream: Seq<u8>, fields: Seq<(Seq<char>, Seq<char>)>) -> Pending {
    match declared_body(fields) {
        Ok(Some((kind, n))) => if n > MAX_FILE_SIZE || boundary_of(kind) is None || stream.len()
            >= n {
            Pending::Nothing
        } else {
            Pending::Bytes((n - stream.len()) as usize)
        },
        _ => Pending::Nothing,
    }
}

/// What is to be fetched while the header fields are read: a line, as long
/// as the lines received are well-formed fields and the last of them ended.
pub open spec fn pending_fields(stream: Seq<u8>, seen: Seq<(Seq<char>, Seq<char>)>) -> Pending
    decreases stream.len(),
{
    let n = line_length(stream);
    let line = stream.take(n);
    if !line_ended(stream) {
        Pending::Line
    } else if !(0 < n <= stream.len()) || !valid_utf8(line) {
        Pending::Nothing
    } else if decode_utf8(line) == blank_line() {
        pending_body(stream.skip(n), seen)
    } else {
        match header_field(decode_utf8(line)) {
            Some((name, value)) => pending_fields(stream.skip(n), with_field(seen, name, value)),
            None => Pending::Nothing,
        }
    }
}

/// What is to be fetched next, given the bytes received so far.
pub open spec fn pending_of(received: Seq<u8>) -> Pending {
    let n = line_length(received);
    let first = received.take(n);
    if !line_ended(received) {
        Pending::Line
    } else if !valid_utf8(first) || request_line(decode_utf8(first)) is None {
        Pending::Nothing
    } else {
        pending_fields(received.skip(n), Seq::empty())
    }
}

impl Request {
    /// Tells a reader what to fetch next, given the bytes received so far.
    ///
    /// A reader that fetches what is asked until nothing is asked, or the
    /// stream ends, has read what `try_new` looks at and no more.
    pub fn pending(received: &[u8]) -> (r: Pending)
        ensures
            r == pending_of(received@),
    {
        let (first, rest, ended) = take_line(received);
        if !ended {
            return Pending::Line;
        }
        let Some(line) = line_text(first) else {
            return Pending::Nothing;
        };
        if request_line_of(line.as_slice()).is_none() {
            return Pending::Nothing;
        }
        let mut headers = Headers::new();
        let mut rest: &[u8] = rest;
        loop
            invariant_except_break
                pending_fields(rest@, headers@) == pending_of(received@),
            ensures
                pending_body(rest@, headers@) == pending_of(received@),
            decreases rest@.len(),
        {
            let (line, after, ended) = take_line(rest);
            if !ended {
                return Pending::Line;
            }
            let Some(text) = line_text(line) else {
                return Pending::Nothing;
            };
            if is_blank_line(text.as_slice()) {
                rest = after;
                break ;
            }
            let Some((name, value)) = header_field_of(text.as_slice()) else {
                return Pending::Nothing;
            };
            headers.insert(string_of(name.as_slice()), string_of(value.as_slice()));
            rest = after;
        }
        match Request::declared(&headers) {
            Ok(Some((kind, n))) => {
                let kind_chars = chars_of(kind.as_str());
                let marker = chars_of("boundary=");
                if n > MAX_FILE_SIZE || split_once(
                    kind_chars.as_slice(),
                    marker.as_slice(),
                ).is_none() || rest.len() >= n {
                    Pending::Nothing
                } else {
                    Pending::Bytes(n - rest.len())
                }
            },
            _ => Pending::Nothing,
        }
    }
}

/// Whether `s` can stand as a token: it is not empty and holds no white
/// space.
pub open spec fn is_token(s: Seq<char>) -> bool {
    s.len() > 0 && forall|i: int| 0 <= i < s.len() ==> !is_whitespace(#[trigger] s[i])
}

/// A token at the start of a text, followed by white space or by nothing,
/// is the first token of the text.
pub proof fn lemma_tokens_after_token(token: Seq<char>, rest: Seq<char>)
    requires
        is_token(token),
        rest.len() == 0 || is_whitespace(rest[0]),
    ensures
        tokens(token + rest) == seq![token] + tokens(rest),
{
    let s = token + rest;
    assert(s[0] == token[0]);
    lemma_leading_run_is(s, CharClass::Space, 0);
    assert(without_leading(s, CharClass::Space) =~= s);
    assert forall|i: int| 0 <= i < token.len() implies CharClass::Solid.holds(#[trigger] s[i]) by {
        assert(s[i] == token[i]);
    }
    if token.len() < s.len() {
        assert(s[token.len() as int] == rest[0]);
    }
    lemma_leading_run_is(s, CharClass::Solid, token.len() as int);
    assert(s.take(token.len() as int) =~= token);
    assert(s.skip(token.len() as int) =~= rest);
}

/// White space at the start of a text adds no token.
pub proof fn lemma_tokens_after_space(space: char, rest: Seq<char>)
    requires
        is_whitespace(space),
    ensures
        tokens(seq![space] + rest) == tokens(rest),
{
    let s = seq![space] + rest;
    assert(s.drop_first() =~= rest);
    assert(s[0] == space);
    lemma_leading_run_bounds(rest, CharClass::Space);
    assert(leading_run(s, CharClass::Space) == 1 + leading_run(rest, CharClass::Space));
    assert(without_leading(s, CharClass::Space) =~= without_leading(rest, CharClass::Space));
}

/// A text of white space alone has no token.
pub proof fn lemma_tokens_of_space(s: Seq<char>)
    requires
        forall|i: int| 0 <= i < s.len() ==> is_whitespace(#[trigger] s[i]),
    ensures
        tokens(s) == Seq::<Seq<char>>::empty(),
{
    lemma_leading_run_is(s, CharClass::Space, s.len() as int);
    assert(without_leading(s, CharClass::Space) =~= Seq::<char>::empty());
}

/// The request line made of a method name, a path and a version with one
/// space between them, ended by a line break, gives back these three: the
/// method that the name stands for, the path and the version.
pub proof fn lemma_request_line_round_trip(name: Seq<char>, path: Seq<char>, version: Seq<char>)
    requires
        is_token(name),
        is_token(path),
        is_token(version),
    ensures
        request_line(name + seq![' '] + path + seq![' '] + version + blank_line()) == match method_named(
            name,
        ) {
            Some(method) => Some((method, path, version)),
            None => None,
        },
        tokens(name + seq![' '] + path + seq![' '] + version + blank_line()) == seq![
            name,
            path,
            version,
        ],
{
    let end = blank_line();
    assert(is_whitespace('\r') && is_whitespace('\n') && is_whitespace(' '));
    assert forall|i: int| 0 <= i < end.len() implies is_whitespace(#[trigger] end[i]) by {}
    lemma_tokens_of_space(end);
    lemma_tokens_after_token(version, end);
    let third = version + end;
    lemma_tokens_after_space(' ', third);
    let after_path = seq![' '] + third;
    lemma_tokens_after_token(path, after_path);
    let second = path + after_path;
    lemma_tokens_after_space(' ', second);
    let after_name = seq![' '] + second;
    lemma_tokens_after_token(name, after_name);
    let line = name + seq![' '] + path + seq![' '] + version + blank_line();
    assert(line =~= name + after_name);
    assert(tokens(line) =~= seq![name, path, version]);
}

/// A line with fewer than three tokens gives no request line.
pub proof fn lemma_short_request_line(line: Seq<char>)
    requires
        tokens(line).len() < 3,
    ensures
        request_line(line) is None,
{
}

/// A text of upper-case ASCII letters is its own upper-case form.
pub proof fn lemma_uppercase_of_capitals(s: Seq<char>)
    requires
        forall|i: int| 0 <= i < s.len() ==> 'A' <= #[trigger] s[i] <= 'Z',
    ensures
        uppercase(s) == s,
    decreases s.len(),
{
    if s.len() > 0 {
        let front = s.drop_last();
        assert forall|i: int| 0 <= i < front.len() implies 'A' <= #[trigger] front[i] <= 'Z' by {
            assert(front[i] == s[i]);
        }
        lemma_uppercase_of_capitals(front);
        assert('A' <= s[s.len() - 1] <= 'Z');
        assert(upper(s.last()) =~= seq![s.last()]);
        assert(uppercase(s) =~= s);
    } else {
        assert(uppercase(s) =~= s);
    }
}

/// The name of each method is read as that method, and can stand as a
/// token.
pub proof fn lemma_method_name_is_read(method: HttpMethod)
    ensures
        method_named(method.name()) == Some(method),
        is_token(method.name()),
{
    reveal_strlit("GET");
    reveal_strlit("POST");
    reveal_strlit("PUT");
    reveal_strlit("PATCH");
    reveal_strlit("DELETE");
    reveal_strlit("HEAD");
    reveal_strlit("OPTIONS");
    reveal_strlit("TRACE");
    reveal_strlit("CONNECT");
    let name = method.name();
    assert forall|i: int| 0 <= i < name.len() implies 'A' <= #[trigger] name[i] <= 'Z' by {}
    lemma_uppercase_of_capitals(name);
    assert("POST"@[1] != "HEAD"@[1]);
    assert("PATCH"@[1] != "TRACE"@[1]);
    assert("GET"@[0] != "PUT"@[0]);
    assert("OPTIONS"@[0] != "CONNECT"@[0]);
}

/// Whether a word of a header name starts at position `i`.
pub open spec fn starts_word(s: Seq<char>, i: int) -> bool {
    i == 0 || s[i - 1] == '-'
}

/// Whether two header names are the same up to the case of their
/// letters: they have their `-` at the same places, the characters that
/// start a word have the same upper-case mapping, and all others the same
/// lower-case mapping.
pub open spec fn same_but_case(a: Seq<char>, b: Seq<char>) -> bool {
    &&& a.len() == b.len()
    &&& forall|i: int|
        0 <= i < a.len() ==> {
            &&& ((#[trigger] a[i]) == '-' <==> b[i] == '-')
            &&& (if starts_word(a, i) {
                upper(a[i]) == upper(b[i])
            } else {
                lower(a[i]) == lower(b[i])
            })
        }
}

/// Texts whose characters have the same lower-case mappings, place by
/// place, have the same lower-case form.
proof fn lemma_lowercase_alike(a: Seq<char>, b: Seq<char>)
    requires
        a.len() == b.len(),
        forall|i: int| 0 <= i < a.len() ==> lower(#[trigger] a[i]) == lower(b[i]),
    ensures
        lowercase(a) == lowercase(b),
    decreases a.len(),
{
    if a.len() > 0 {
        let fa = a.drop_last();
        let fb = b.drop_last();
        assert forall|i: int| 0 <= i < fa.len() implies lower(#[trigger] fa[i]) == lower(
            fb[i],
        ) by {
            assert(fa[i] == a[i] && fb[i] == b[i]);
        }
        lemma_lowercase_alike(fa, fb);
        assert(lower(a[a.len() - 1]) == lower(b[a.len() - 1]));
    }
}

/// Two words whose first characters have the same upper-case mapping, and
/// whose other characters have the same lower-case mappings, are
/// capitalised alike.
proof fn lemma_capitalised_alike(a: Seq<char>, b: Seq<char>)
    requires
        a.len() == b.len(),
        a.len() > 0 ==> upper(a[0]) == upper(b[0]),
        forall|i: int| 1 <= i < a.len() ==> lower(#[trigger] a[i]) == lower(b[i]),
    ensures
        capitalised(a) == capitalised(b),
{
    if a.len() > 0 {
        let ra = a.skip(1);
        let rb = b.skip(1);
        assert forall|i: int| 0 <= i < ra.len() implies lower(#[trigger] ra[i]) == lower(
            rb[i],
        ) by {
            assert(ra[i] == a[i + 1] && rb[i] == b[i + 1]);
            assert(lower(a[i + 1]) == lower(b[i + 1]));
        }
        lemma_lowercase_alike(ra, rb);
    } else {
        assert(a =~= b);
    }
}

/// Header names that are the same up to the case of their letters have
/// the same header case: a lookup finds the field in whichever case the
/// client sent its name.
pub proof fn lemma_header_case_ignores_case(a: Seq<char>, b: Seq<char>)
    requires
        same_but_case(a, b),
    ensures
        header_case(a) == header_case(b),
    decreases a.len(),
{
    let dash = seq!['-'];
    lemma_first_match_bounds(a, dash, 0);
    assert forall|j: int| occurs_at(a, dash, j) <==> occurs_at(b, dash, j) by {
        lemma_occurs_single(a, '-', j);
        lemma_occurs_single(b, '-', j);
    }
    match first_match(a, dash) {
        Some(i) => {
            lemma_first_match_is(b, dash, 0, i);
            lemma_occurs_single(a, '-', i);
            let wa = a.take(i);
            let wb = b.take(i);
            assert forall|k: int| 1 <= k < wa.len() implies lower(#[trigger] wa[k]) == lower(
                wb[k],
            ) by {
                lemma_occurs_single(a, '-', k - 1);
                assert(wa[k] == a[k] && wb[k] == b[k]);
                assert(!starts_word(a, k));
            }
            if i > 0 {
                assert(wa[0] == a[0] && wb[0] == b[0]);
                assert(starts_word(a, 0));
            }
            lemma_capitalised_alike(wa, wb);
            let ra = a.skip(i + 1);
            let rb = b.skip(i + 1);
            assert forall|k: int| 0 <= k < ra.len() implies {
                &&& ((#[trigger] ra[k]) == '-' <==> rb[k] == '-')
                &&& (if starts_word(ra, k) {
                    upper(ra[k]) == upper(rb[k])
                } else {
                    lower(ra[k]) == lower(rb[k])
                })
            } by {
                assert(ra[k] == a[i + 1 + k] && rb[k] == b[i + 1 + k]);
                if k > 0 {
                    assert(ra[k - 1] == a[i + k]);
                }
                assert(starts_word(ra, k) == starts_word(a, i + 1 + k));
            }
            lemma_header_case_ignores_case(ra, rb);
        },
        None => {
            lemma_first_match_none(b, dash, 0);
            assert forall|k: int| 1 <= k < a.len() implies lower(#[trigger] a[k]) == lower(
                b[k],
            ) by {
                lemma_occurs_single(a, '-', k - 1);
                assert(!starts_word(a, k));
            }
            if a.len() > 0 {
                assert(starts_word(a, 0));
            }
            lemma_capitalised_alike(a, b);
        },
    }
}

/// Whether two ASCII texts are the same up to the case of their letters.
pub open spec fn same_ignoring_ascii_case(a: Seq<char>, b: Seq<char>) -> bool {
    &&& a.len() == b.len()
    &&& forall|i: int|
        0 <= i < a.len() ==> (#[trigger] a[i] as u32) < 128 && (b[i] as u32) < 128
            && ascii_lower(a[i]) == ascii_lower(b[i])
}

/// ASCII header names that differ only in the case of their letters,
/// anywhere, have the same header case.
pub proof fn lemma_header_case_ignores_ascii_case(a: Seq<char>, b: Seq<char>)
    requires
        same_ignoring_ascii_case(a, b),
    ensures
        header_case(a) == header_case(b),
{
    assert forall|i: int| 0 <= i < a.len() implies {
        &&& ((#[trigger] a[i]) == '-' <==> b[i] == '-')
        &&& (if starts_word(a, i) {
            upper(a[i]) == upper(b[i])
        } else {
            lower(a[i]) == lower(b[i])
        })
    } by {
        let x = a[i];
        let y = b[i];
        assert((x as u32) < 128 && (y as u32) < 128 && ascii_lower(x) == ascii_lower(y));
        lemma_ascii_case(x, y);
    }
    lemma_header_case_ignores_case(a, b);
}

/// Two ASCII characters with the same lower-case form have the same
/// upper-case form, and neither is `-` unless both are.
proof fn lemma_ascii_case(x: char, y: char)
    requires
        (x as u32) < 128,
        (y as u32) < 128,
        ascii_lower(x) == ascii_lower(y),
    ensures
        ascii_upper(x) == ascii_upper(y),
        x == '-' <==> y == '-',
        upper(x) == upper(y),
        lower(x) == lower(y),
{
    if 'A' <= x <= 'Z' {
        assert(ascii_lower(x) as int == x as int + 32);
    }
    if 'A' <= y <= 'Z' {
        assert(ascii_lower(y) as int == y as int + 32);
    }
    if 'a' <= x <= 'z' {
        assert(ascii_upper(x) as int == x as int - 32);
    }
    if 'a' <= y <= 'z' {
        assert(ascii_upper(y) as int == y as int - 32);
    }
}

/// An ASCII header name that is written in header case already is its own
/// header case: no word of it starts with a lower-case letter, and no
/// other character is an upper-case letter.
pub proof fn lemma_header_case_of_canonical(s: Seq<char>)
    requires
        forall|i: int|
            0 <= i < s.len() ==> (#[trigger] s[i] as u32) < 128 && (if starts_word(s, i) {
                !('a' <= s[i] <= 'z')
            } else {
                !('A' <= s[i] <= 'Z')
            }),
    ensures
        header_case(s) == s,
    decreases s.len(),
{
    let dash = seq!['-'];
    lemma_first_match_bounds(s, dash, 0);
    match first_match(s, dash) {
        Some(i) => {
            lemma_occurs_single(s, '-', i);
            let w = s.take(i);
            assert forall|k: int| 0 <= k < w.len() implies (#[trigger] w[k] as u32) < 128 && (
            if k == 0 {
                !('a' <= w[k] <= 'z')
            } else {
                !('A' <= w[k] <= 'Z')
            }) by {
                assert(w[k] == s[k]);
                if k > 0 {
                    lemma_occurs_single(s, '-', k - 1);
                    assert(!starts_word(s, k));
                } else {
                    assert(starts_word(s, 0));
                }
            }
            lemma_capitalised_of_canonical(w);
            let r = s.skip(i + 1);
            assert forall|k: int| 0 <= k < r.len() implies (#[trigger] r[k] as u32) < 128 && (
            if starts_word(r, k) {
                !('a' <= r[k] <= 'z')
            } else {
                !('A' <= r[k] <= 'Z')
            }) by {
                assert(r[k] == s[i + 1 + k]);
                if k > 0 {
                    assert(r[k - 1] == s[i + k]);
                }
                assert(starts_word(r, k) == starts_word(s, i + 1 + k));
            }
            lemma_header_case_of_canonical(r);
            assert(s =~= w + dash + r);
        },
        None => {
            assert forall|k: int| 0 <= k < s.len() implies (#[trigger] s[k] as u32) < 128 && (
            if k == 0 {
                !('a' <= s[k] <= 'z')
            } else {
                !('A' <= s[k] <= 'Z')
            }) by {
                if k > 0 {
                    lemma_occurs_single(s, '-', k - 1);
                    assert(!starts_word(s, k));
                } else {
                    assert(starts_word(s, 0));
                }
            }
            lemma_capitalised_of_canonical(s);
        },
    }
}

/// In whatever case a client writes `Content-Length` or `Content-Type`,
/// the field is kept under that very name, where the server looks for it.
pub proof fn lemma_body_fields_are_found(name: Seq<char>)
    ensures
        same_ignoring_ascii_case(name, "Content-Length"@) ==> header_case(name)
            == "Content-Length"@,
        same_ignoring_ascii_case(name, "Content-Type"@) ==> header_case(name) == "Content-Type"@,
{
    reveal_strlit("Content-Length");
    reveal_strlit("Content-Type");
    if same_ignoring_ascii_case(name, "Content-Length"@) {
        lemma_header_case_of_canonical("Content-Length"@);
        lemma_header_case_ignores_ascii_case(name, "Content-Length"@);
    }
    if same_ignoring_ascii_case(name, "Content-Type"@) {
        lemma_header_case_of_canonical("Content-Type"@);
        lemma_header_case_ignores_ascii_case(name, "Content-Type"@);
    }
}

/// An ASCII text without upper-case letters is its own lower-case form.
proof fn lemma_lowercase_of_small(s: Seq<char>)
    requires
        forall|i: int| 0 <= i < s.len() ==> (#[trigger] s[i] as u32) < 128 && !('A' <= s[i] <= 'Z'),
    ensures
        lowercase(s) == s,
    decreases s.len(),
{
    if s.len() > 0 {
        let front = s.drop_last();
        assert forall|i: int| 0 <= i < front.len() implies (#[trigger] front[i] as u32) < 128
            && !('A' <= front[i] <= 'Z') by {
            assert(front[i] == s[i]);
        }
        lemma_lowercase_of_small(front);
        assert((s[s.len() - 1] as u32) < 128 && !('A' <= s[s.len() - 1] <= 'Z'));
        assert(lower(s.last()) =~= seq![s.last()]);
        assert(lowercase(s) =~= s);
    } else {
        assert(lowercase(s) =~= s);
    }
}

/// An ASCII word that does not start with a lower-case letter and holds
/// no upper-case letter after its first character is capitalised already.
proof fn lemma_capitalised_of_canonical(w: Seq<char>)
    requires
        forall|k: int|
            0 <= k < w.len() ==> (#[trigger] w[k] as u32) < 128 && (if k == 0 {
                !('a' <= w[k] <= 'z')
            } else {
                !('A' <= w[k] <= 'Z')
            }),
    ensures
        capitalised(w) == w,
{
    if w.len() > 0 {
        let rest = w.skip(1);
        assert forall|i: int| 0 <= i < rest.len() implies (#[trigger] rest[i] as u32) < 128
            && !('A' <= rest[i] <= 'Z') by {
            assert(rest[i] == w[i + 1]);
        }
        lemma_lowercase_of_small(rest);
        assert((w[0] as u32) < 128 && !('a' <= w[0] <= 'z'));
        assert(upper(w[0]) =~= seq![w[0]]);
        assert(capitalised(w) =~= w);
    }
}

/// A body that is declared longer than the limit is refused whatever the
/// stream holds, and none of it is asked for.
pub proof fn lemma_oversized_body_is_not_read(
    stream: Seq<u8>,
    fields: Seq<(Seq<char>, Seq<char>)>,
    kind: Seq<char>,
    length: nat,
)
    requires
        declared_body(fields) == Ok::<_, ErrorKind>(Some((kind, length))),
        length > MAX_FILE_SIZE,
    ensures
        multipart_file(stream, kind, length) is None,
        request_body(stream, fields) == Err::<Option<(Seq<char>, Seq<u8>)>, _>(ErrorKind::Invalid),
        pending_body(stream, fields) == Pending::Nothing,
{
}

/// A line that a line feed ended stays the first line, whatever follows.
pub proof fn lemma_line_of_longer_stream(stream: Seq<u8>, more: Seq<u8>)
    requires
        line_ended(stream),
    ensures
        line_ended(stream + more),
        line_length(stream + more) == line_length(stream),
        0 < line_length(stream) <= stream.len(),
        (stream + more).take(line_length(stream)) == stream.take(line_length(stream)),
        (stream + more).skip(line_length(stream)) == stream.skip(line_length(stream)) + more,
{
    let feed = seq![10u8];
    let longer = stream + more;
    lemma_first_match_bounds(stream, feed, 0);
    let i = first_match(stream, feed)->0;
    assert(longer.subrange(i, i + 1) =~= stream.subrange(i, i + 1));
    assert forall|j: int| 0 <= j < i implies !occurs_at(longer, feed, j) by {
        assert(!occurs_at(stream, feed, j));
        assert(longer.subrange(j, j + 1) =~= stream.subrange(j, j + 1));
    }
    lemma_first_match_is(longer, feed, 0, i);
    assert(longer.take(i + 1) =~= stream.take(i + 1));
    assert(longer.skip(i + 1) =~= stream.skip(i + 1) + more);
}

/// Once nothing is pending for the body, bytes that follow do not change
/// the body.
pub proof fn lemma_body_of_longer_stream(
    stream: Seq<u8>,
    fields: Seq<(Seq<char>, Seq<char>)>,
    more: Seq<u8>,
)
    requires
        pending_body(stream, fields) == Pending::Nothing,
    ensures
        request_body(stream + more, fields) == request_body(stream, fields),
{
    match declared_body(fields) {
        Ok(Some((kind, n))) => {
            if n <= MAX_FILE_SIZE && boundary_of(kind) is Some {
                assert((stream + more).take(n as int) =~= stream.take(n as int));
            }
        },
        _ => {},
    }
}

/// Once nothing is pending while the header fields are read, bytes that
/// follow do not change the fields, and leave the body as it is.
pub proof fn lemma_fields_of_longer_stream(
    stream: Seq<u8>,
    seen: Seq<(Seq<char>, Seq<char>)>,
    more: Seq<u8>,
)
    requires
        pending_fields(stream, seen) == Pending::Nothing,
    ensures
        match stream_fields(stream, seen) {
            Some((fields, rest)) => stream_fields(stream + more, seen) == Some(
                (fields, rest + more),
            ) && pending_body(rest, fields) == Pending::Nothing,
            None => stream_fields(stream + more, seen) is None,
        },
    decreases stream.len(),
{
    lemma_line_of_longer_stream(stream, more);
    let n = line_length(stream);
    let line = stream.take(n);
    if valid_utf8(line) && decode_utf8(line) != blank_line() {
        match header_field(decode_utf8(line)) {
            Some((name, value)) => {
                lemma_fields_of_longer_stream(stream.skip(n), with_field(seen, name, value), more);
            },
            None => {},
        }
    }
}

/// Once nothing is pending, what was received decides the request: bytes
/// that follow do not change it. A reader that fetches what is asked for
/// until nothing is asked for has read all that the request depends on.
pub proof fn lemma_nothing_pending_is_final(received: Seq<u8>, more: Seq<u8>)
    requires
        pending_of(received) == Pending::Nothing,
    ensures
        parsed_request(received + more) == parsed_request(received),
{
    lemma_line_of_longer_stream(received, more);
    let n = line_length(received);
    let first = received.take(n);
    if valid_utf8(first) && request_line(decode_utf8(first)) is Some {
        lemma_fields_of_longer_stream(received.skip(n), Seq::empty(), more);
        match stream_fields(received.skip(n), Seq::empty()) {
            Some((fields, rest)) => {
                lemma_body_of_longer_stream(rest, fields, more);
            },
            None => {},
        }
    }
}

} // verus!
