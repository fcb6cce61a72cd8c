//! The routes of the server, what each of them decides, and the page that
//! goes with each kind of failure.
//!
//! Nothing here touches the disk. Where a route needs the file system, the
//! router names the step to take, and the handler takes what the step gave.

use vstd::prelude::*;
use vstd::utf8::encode_utf8;

use crate::common::{about, AppError, BufferedFile, ErrorKind, FileProbe};
use crate::listing::listing_of;
use crate::paths::{
    begins_with, components, components_of, extension, extension_of, file_name, file_name_of,
    has_prefix, is_plain_name, join, joined, lemma_extension_of_name, lemma_join_plain_names,
    lemma_plain_name_is_file_name, normalize, normalized, path_text, render, same,
};
use crate::request::{HttpMethod, Request, RequestBody};
use crate::response::{body_file, wire, HttpStatus, Response, ResponseBody};
use crate::strings::string_of;
use crate::text::{
    chars_of, occurs_at, replace_all, replaced, starts_with, strip_leading,
    strip_leading_copies, without_leading, without_leading_copies, CharClass,
};

verus! {

/// The pages of the server, as texts.
pub struct Templates {
    pub access_denied: String,
    pub bad_request: String,
    pub file_not_found: String,
    pub index: String,
    pub page_not_found: String,
    pub server_error: String,
    pub upload: String,
}

/// Whether files of this extension are served and accepted.
pub open spec fn allowed_extension(ext: Seq<char>) -> bool {
    ext == "txt"@ || ext == "png"@ || ext == "jpg"@ || ext == "pdf"@
}

/// Whether a path names a file that is served and accepted: it has a base
/// name, and that name has an allowed extension.
pub open spec fn valid_filename(path: Seq<char>) -> bool {
    &&& file_name(path) matches Some(name) && name.len() > 0
    &&& extension(path) matches Some(ext) && allowed_extension(ext)
}

/// What is said of a path whose file name is refused: that it has no base
/// name, that the base name is empty, or that the extension is not an
/// allowed one; then the path itself.
pub open spec fn refusal_message(path: Seq<char>) -> Seq<char> {
    match file_name(path) {
        Some(name) => if name.len() == 0 {
            "Filename failed sanitization: "@ + path
        } else {
            "Filename has an unsupported extension: "@ + path
        },
        None => "Filename is not a valid UTF-8 file name: "@ + path,
    }
}

/// The name of the file to view that a request path gives: the path
/// without its leading slashes and, after them, without every leading
/// `uploads/`.
pub open spec fn view_name(filename: Seq<char>) -> Seq<char> {
    without_leading_copies(without_leading(filename, CharClass::Just('/')), "uploads/"@)
}

/// The path under the uploads directory that a request path stands for.
pub open spec fn view_target_of(filename: Seq<char>) -> Seq<char> {
    joined("uploads"@, view_name(filename))
}

/// What a request for a file comes to: the path of the file to send, or
/// the kind of the failure. `resolved` is the canonical path of the target
/// and `base` that of the uploads directory, where they could be had.
///
/// A target without canonical path is not found. One whose canonical path
/// does not lie under that of the uploads directory is not permitted. Only
/// a target under the uploads directory is then held to the rules for
/// file names.
pub open spec fn view_outcome(
    filename: Seq<char>,
    resolved: Option<Seq<char>>,
    base: Option<Seq<char>>,
) -> Result<Seq<char>, ErrorKind> {
    match resolved {
        Some(path) => match base {
            Some(root) => if !begins_with(components(path), components(root)) {
                Err(ErrorKind::NotPermitted)
            } else if !valid_filename(view_name(filename)) {
                Err(ErrorKind::Invalid)
            } else {
                Ok(path)
            },
            None => Err(ErrorKind::Unknown),
        },
        None => Err(ErrorKind::NotFound),
    }
}

/// The path at which an upload called `name` is written.
pub open spec fn upload_path(name: Seq<char>) -> Seq<char> {
    joined("uploads"@, name)
}

/// Whether the path of an upload stays under the uploads directory once
/// `.` and `..` are taken out of it.
pub open spec fn upload_contained(name: Seq<char>) -> bool {
    begins_with(normalized(components(upload_path(name))), components("uploads/"@))
}

/// What an upload comes to: the path to write and the content, or the kind
/// of the failure.
pub open spec fn upload_outcome(body: Option<(Seq<char>, Seq<u8>)>) -> Result<
    (Seq<char>, Seq<u8>),
    ErrorKind,
> {
    match body {
        Some((name, content)) => if !valid_filename(name) {
            Err(ErrorKind::Invalid)
        } else if !upload_contained(name) {
            Err(ErrorKind::NotPermitted)
        } else {
            Ok((upload_path(name), content))
        },
        None => Err(ErrorKind::Invalid),
    }
}

/// The list item that links to one file.
pub open spec fn file_link(name: Seq<char>, path: Seq<char>) -> Seq<char> {
    "<li><a href=\""@ + path + "\">"@ + name + "</a></li>"@
}

/// The list items of the files, one per line.
pub open spec fn file_links(files: Seq<(Seq<char>, Seq<char>)>) -> Seq<char>
    decreases files.len(),
{
    if files.len() == 0 {
        Seq::empty()
    } else if files.len() == 1 {
        file_link(files[0].0, files[0].1)
    } else {
        file_links(files.drop_last()) + seq!['\n'] + file_link(files.last().0, files.last().1)
    }
}

/// The index page: the template with the list of files in the place of
/// its marker.
pub open spec fn index_page(template: Seq<char>, files: Seq<(Seq<char>, Seq<char>)>) -> Seq<
    char,
> {
    replaced(template, "{{FILES_LIST}}"@, file_links(files))
}

/// A file to write: where, and what.
#[derive(Debug)]
pub struct SaveOrder {
    pub path: String,
    pub content: Vec<u8>,
}

/// Whether `r` is the plain response with this status and this page.
pub open spec fn is_page(r: Response, status: HttpStatus, page: Seq<char>) -> bool {
    &&& r.http_version@ == "HTTP/1.1"@
    &&& r.status == status
    &&& r.headers@ == Seq::<(Seq<char>, Seq<char>)>::empty()
    &&& r.body matches ResponseBody::Text(text) && text@ == page
}

/// Makes the plain response with this status and this page.
fn page(status: HttpStatus, text: String) -> (r: Response)
    ensures
        is_page(r, status, text@),
{
    Response::builder().status(status).body(ResponseBody::Text(text)).build()
}

/// The handlers of the four routes.
pub struct RequestHandler;

impl RequestHandler {
    /// Answers with the index page that lists the files. `files` holds the
    /// name and the path of each file in the uploads directory.
    pub fn list_files(templates: &Templates, files: &Vec<(String, String)>) -> (r: Response)
        ensures
            is_page(r, HttpStatus::Success, index_page(templates.index@, listing_of(files@))),
    {
        let mut links: Vec<char> = Vec::new();
        let open = chars_of("<li><a href=\"");
        let middle = chars_of("\">");
        let close = chars_of("</a></li>");
        let mut i: usize = 0;
        assert(listing_of(files@).take(0) =~= Seq::<(Seq<char>, Seq<char>)>::empty());
        while i < files.len()
            invariant
                i <= files.len(),
                open@ == "<li><a href=\""@,
                middle@ == "\">"@,
                close@ == "</a></li>"@,
                links@ == file_links(listing_of(files@).take(i as int)),
            decreases files.len() - i,
        {
            let ghost before = links@;
            if i > 0 {
                links.push('\n');
            }
            let name = chars_of(files[i].0.as_str());
            let path = chars_of(files[i].1.as_str());
            links.extend_from_slice(open.as_slice());
            links.extend_from_slice(path.as_slice());
            links.extend_from_slice(middle.as_slice());
            links.extend_from_slice(name.as_slice());
            links.extend_from_slice(close.as_slice());
            proof {
                let upto = listing_of(files@).take(i + 1);
                assert(upto.drop_last() =~= listing_of(files@).take(i as int));
                assert(upto.last() == (name@, path@));
                if i == 0 {
                    assert(upto[0] == (name@, path@));
                    assert(links@ =~= file_link(name@, path@));
                } else {
                    assert(links@ =~= before + seq!['\n'] + file_link(name@, path@));
                }
            }
            i += 1;
        }
        assert(listing_of(files@).take(i as int) =~= listing_of(files@));
        let template = chars_of(templates.index.as_str());
        let marker = chars_of("{{FILES_LIST}}");
        let html = replace_all(template.as_slice(), marker.as_slice(), links.as_slice());
        page(HttpStatus::Success, string_of(html.as_slice()))
    }

    /// Tells which path under the uploads directory a request for a file
    /// stands for: the path to resolve before `view_file` is called.
    pub fn view_target(filename: &str) -> (r: String)
        ensures
            r@ == view_target_of(filename@),
    {
        let path = chars_of(filename);
        let name = RequestHandler::name_to_view(path.as_slice());
        let base = chars_of("uploads");
        let target = join(base.as_slice(), name);
        string_of(target.as_slice())
    }

    /// Takes the leading slashes and `uploads/` off a request path.
    fn name_to_view<'a>(path: &'a [char]) -> (r: &'a [char])
        ensures
            r@ == view_name(path@),
    {
        let prefix = chars_of("uploads/");
        strip_leading_copies(strip_leading(path, CharClass::Just('/')), prefix.as_slice())
    }

    /// Answers a request for a file. `resolved` is the canonical path of
    /// the target and `base` that of the uploads directory, `None` where
    /// the file system could not give one.
    ///
    /// A target without canonical path is not found, and one whose
    /// canonical path does not lie under that of the uploads directory is
    /// not permitted, whatever its name. A target under the uploads
    /// directory is sent where its name is one that is served, and is
    /// invalid where it is not.
    pub fn view_file(filename: String, resolved: Option<String>, base: Option<String>) -> (r:
        Result<Response, AppError>)
        ensures
            match r {
                Ok(response) => {
                    &&& response.http_version@ == "HTTP/1.1"@
                    &&& response.status == HttpStatus::Success
                    &&& response.headers@ == Seq::<(Seq<char>, Seq<char>)>::empty()
                    &&& response.body matches ResponseBody::File(path) && view_outcome(
                        filename@,
                        option_view(resolved),
                        option_view(base),
                    ) == Ok::<_, ErrorKind>(path@)
                },
                Err(e) => view_outcome(filename@, option_view(resolved), option_view(base))
                    == Err::<Seq<char>, _>(e.kind()),
            },
    {
        let Some(resolved) = resolved else {
            return Err(
                AppError::NotFound(
                    about(
                        "Client attempted to access a file that does not exist: ",
                        RequestHandler::view_target(filename.as_str()).as_str(),
                    ),
                ),
            );
        };
        let Some(base) = base else {
            return Err(AppError::Unknown("Failed to canonicalize base path".to_owned()));
        };
        let resolved_parts = components_of(chars_of(resolved.as_str()).as_slice());
        let base_parts = components_of(chars_of(base.as_str()).as_slice());
        if !has_prefix(&resolved_parts, &base_parts) {
            return Err(
                AppError::NotPermitted(
                    about(
                        "Client attempted to access a path outside the uploads directory: ",
                        resolved.as_str(),
                    ),
                ),
            );
        }
        let path = chars_of(filename.as_str());
        let name = RequestHandler::name_to_view(path.as_slice());
        if !RequestHandler::is_valid_filename(name) {
            return Err(RequestHandler::refusal(name));
        }
        Ok(Response::builder().body(ResponseBody::File(resolved)).build())
    }

    /// Answers with the page that holds the upload form.
    pub fn get_file_upload_view(templates: &Templates) -> (r: Response)
        ensures
            is_page(r, HttpStatus::Success, templates.upload@),
    {
        page(HttpStatus::Success, templates.upload.clone())
    }

    /// Decides an upload: gives the file to write, and the response to
    /// send once it is written, a redirect to the index page.
    ///
    /// Refused as invalid without a multipart body or with a file name
    /// that is not accepted, and as not permitted where the path would
    /// leave the uploads directory.
    pub fn upload_file(request_body: RequestBody) -> (r: Result<(SaveOrder, Response), AppError>)
        ensures
            match r {
                Ok((order, response)) => {
                    &&& upload_outcome(request_body.model()) == Ok::<_, ErrorKind>(
                        (order.path@, order.content@),
                    )
                    &&& response.http_version@ == "HTTP/1.1"@
                    &&& response.status == HttpStatus::SeeOther
                    &&& response.headers@ == seq![("Location"@, "/"@)]
                    &&& response.body is Empty
                },
                Err(e) => upload_outcome(request_body.model()) == Err::<(Seq<char>, Seq<u8>), _>(
                    e.kind(),
                ),
            },
    {
        let file = match request_body {
            RequestBody::Multipart(file) => file,
            RequestBody::Empty => {
                return Err(AppError::invalid("Request body is not multipart: Empty"));
            },
        };
        let BufferedFile { name, content } = file;
        let name_chars = chars_of(name.as_str());
        if !RequestHandler::is_valid_filename(name_chars.as_slice()) {
            return Err(RequestHandler::refusal(name_chars.as_slice()));
        }
        let base = chars_of("uploads");
        let path = join(base.as_slice(), name_chars.as_slice());
        let resolved = normalize(&components_of(path.as_slice()));
        let root = components_of(chars_of("uploads/").as_slice());
        if !has_prefix(&resolved, &root) {
            return Err(
                AppError::NotPermitted(
                    "Client attempted to access a path outside the uploads directory".to_owned(),
                ),
            );
        }
        let response = Response::builder().status(HttpStatus::SeeOther).header(
            "Location",
            "/",
        ).body(ResponseBody::Empty).build();
        proof {
            assert(response.headers@ =~= seq![("Location"@, "/"@)]);
        }
        Ok((SaveOrder { path: string_of(path.as_slice()), content }, response))
    }

    /// Tests whether a path names a file that is served and accepted.
    fn is_valid_filename(path: &[char]) -> (r: bool)
        ensures
            r == valid_filename(path@),
    {
        let Some(name) = file_name_of(path) else {
            return false;
        };
        if name.len() == 0 {
            return false;
        }
        let Some(ext) = extension_of(path) else {
            return false;
        };
        let txt = chars_of("txt");
        let png = chars_of("png");
        let jpg = chars_of("jpg");
        let pdf = chars_of("pdf");
        same(ext.as_slice(), txt.as_slice()) || same(ext.as_slice(), png.as_slice()) || same(
            ext.as_slice(),
            jpg.as_slice(),
        ) || same(ext.as_slice(), pdf.as_slice())
    }

    /// The failure that says why a file name is refused: it is of kind
    /// `Invalid`, and its message names the fault and the path.
    fn refusal(path: &[char]) -> (e: AppError)
        ensures
            e matches AppError::Invalid(message) && message@ == refusal_message(path@),
    {
        let text = string_of(path);
        match file_name_of(path) {
            Some(name) => if name.len() == 0 {
                AppError::invalid_about("Filename failed sanitization: ", text.as_str())
            } else {
                AppError::invalid_about(
                    "Filename has an unsupported extension: ",
                    text.as_str(),
                )
            },
            None => AppError::invalid_about(
                "Filename is not a valid UTF-8 file name: ",
                text.as_str(),
            ),
        }
    }

    /// Validates the name of a file to serve or to accept: it must have a
    /// base name, and that name an allowed extension.
    pub fn validate_filename(path: &str) -> (r: Result<(), AppError>)
        ensures
            r is Ok <==> valid_filename(path@),
            r matches Err(e) ==> e is Invalid,
    {
        let text = chars_of(path);
        if RequestHandler::is_valid_filename(text.as_slice()) {
            Ok(())
        } else {
            Err(RequestHandler::refusal(text.as_slice()))
        }
    }

    /// Takes `.` and `..` out of a path by the letter: `.` is dropped, and
    /// `..` removes the component before it.
    pub fn resolve_traversals(path: &str) -> (r: String)
        ensures
            r@ == path_text(normalized(components(path@))),
    {
        let text = chars_of(path);
        let parts = normalize(&components_of(text.as_slice()));
        let out = render(&parts);
        string_of(out.as_slice())
    }
}

/// The view of a string that may be missing.
pub open spec fn option_view(s: Option<String>) -> Option<Seq<char>> {
    match s {
        Some(text) => Some(text@),
        None => None,
    }
}

/// The routes of the server.
#[derive(Clone, Copy, Debug, PartialEq, Eq, Structural)]
pub enum Route {
    /// The index page that lists the files.
    Index,
    /// One of the files.
    View,
    /// The page with the upload form.
    Form,
    /// The upload itself.
    Upload,
    /// No route.
    Unrouted,
}

/// The route that a method and a path select.
pub open spec fn route_of(method: HttpMethod, path: Seq<char>) -> Route {
    if method == HttpMethod::Get && path == "/"@ {
        Route::Index
    } else if method == HttpMethod::Get && occurs_at(path, "/uploads"@, 0) {
        Route::View
    } else if method == HttpMethod::Get && path == "/upload"@ {
        Route::Form
    } else if method == HttpMethod::Post && path == "/upload"@ {
        Route::Upload
    } else {
        Route::Unrouted
    }
}

/// What is to be done for a request.
#[derive(Debug)]
pub enum Step {
    /// Send this response.
    Respond(Response),
    /// Log the warning, then send this response.
    Unrouted { response: Response, warning: String },
    /// List the uploads directory, then call `RequestHandler::list_files`.
    List,
    /// Resolve `target` and the uploads directory to their canonical
    /// paths, then call `RequestHandler::view_file` with `filename`.
    Resolve { filename: String, target: String },
    /// Write the file, then send the response.
    Save { order: SaveOrder, response: Response },
}

/// Maps a request to its handler.
pub struct Router;

impl Router {
    /// Tells which route a method and a path select.
    pub fn route(method: HttpMethod, path: &str) -> (r: Route)
        ensures
            r == route_of(method, path@),
    {
        let text = chars_of(path);
        let root = chars_of("/");
        let upload = chars_of("/upload");
        let uploads = chars_of("/uploads");
        match method {
            HttpMethod::Get => if same(text.as_slice(), root.as_slice()) {
                Route::Index
            } else if starts_with(text.as_slice(), uploads.as_slice()) {
                Route::View
            } else if same(text.as_slice(), upload.as_slice()) {
                Route::Form
            } else {
                Route::Unrouted
            },
            HttpMethod::Post => if same(text.as_slice(), upload.as_slice()) {
                Route::Upload
            } else {
                Route::Unrouted
            },
            _ => Route::Unrouted,
        }
    }

    /// Routes a request: answers it where no file system is needed, and
    /// names the step to take where one is.
    ///
    /// A request that matches no route is answered with the page for a
    /// page that was not found, and comes with a warning for the log. A
    /// request for a file always names the paths to resolve: what it
    /// comes to is decided once the file system has answered. An upload
    /// that is refused fails before any step.
    pub fn route_request(request: Request, templates: &Templates) -> (r: Result<Step, AppError>)
        ensures
            match route_of(request.method, request.path@) {
                Route::Index => r matches Ok(Step::List),
                Route::View => r matches Ok(Step::Resolve { filename, target }) && filename@
                    == request.path@ && target@ == view_target_of(request.path@),
                Route::Form => r matches Ok(Step::Respond(response)) && is_page(
                    response,
                    HttpStatus::Success,
                    templates.upload@,
                ),
                Route::Upload => match upload_outcome(request.body.model()) {
                    Ok((path, content)) => {
                        &&& r matches Ok(Step::Save { order, response })
                        &&& order.path@ == path
                        &&& order.content@ == content
                        &&& response.http_version@ == "HTTP/1.1"@
                        &&& response.status == HttpStatus::SeeOther
                        &&& response.headers@ == seq![("Location"@, "/"@)]
                        &&& response.body is Empty
                    },
                    Err(kind) => r matches Err(e) && e.kind() == kind,
                },
                Route::Unrouted => r matches Ok(Step::Unrouted { response, warning }) && is_page(
                    response,
                    HttpStatus::NotFound,
                    templates.page_not_found@,
                ) && warning@ == invalid_page_warning(request.method, request.path@),
            },
    {
        let Request { path, method, http_version: _, headers: _, body } = request;
        match Router::route(method, path.as_str()) {
            Route::Index => Ok(Step::List),
            Route::View => {
                let target = RequestHandler::view_target(path.as_str());
                Ok(Step::Resolve { filename: path, target })
            },
            Route::Form => Ok(Step::Respond(RequestHandler::get_file_upload_view(templates))),
            Route::Upload => match RequestHandler::upload_file(body) {
                Ok((order, response)) => Ok(Step::Save { order, response }),
                Err(e) => Err(e),
            },
            Route::Unrouted => {
                let (response, warning) = ErrorHandler::handle_invalid_page_request(
                    method,
                    path,
                    templates,
                );
                Ok(Step::Unrouted { response, warning })
            },
        }
    }
}

/// How loudly a failure is logged.
#[derive(Clone, Copy, Debug, PartialEq, Eq, Structural)]
pub enum Severity {
    Warning,
    Error,
}

/// The warning that is logged for a request that matches no route.
pub open spec fn invalid_page_warning(method: HttpMethod, path: Seq<char>) -> Seq<char> {
    "Invalid page request: "@ + method.name() + seq![' '] + path
}

/// The status that goes with a kind of failure.
pub open spec fn error_status(kind: ErrorKind) -> HttpStatus {
    match kind {
        ErrorKind::Invalid => HttpStatus::NotFound,
        ErrorKind::NotFound => HttpStatus::NotFound,
        ErrorKind::NotPermitted => HttpStatus::Forbidden,
        ErrorKind::IO => HttpStatus::ServerError,
        ErrorKind::Unknown => HttpStatus::ServerError,
    }
}

/// The page that goes with a kind of failure.
pub open spec fn error_page(templates: Templates, kind: ErrorKind) -> Seq<char> {
    match kind {
        ErrorKind::Invalid => templates.bad_request@,
        ErrorKind::NotFound => templates.file_not_found@,
        ErrorKind::NotPermitted => templates.access_denied@,
        ErrorKind::IO => templates.server_error@,
        ErrorKind::Unknown => templates.server_error@,
    }
}

/// How loudly a kind of failure is logged: what the client got wrong is a
/// warning, what the server got wrong an error.
pub open spec fn error_severity(kind: ErrorKind) -> Severity {
    match kind {
        ErrorKind::Invalid => Severity::Warning,
        ErrorKind::NotFound => Severity::Warning,
        ErrorKind::NotPermitted => Severity::Warning,
        ErrorKind::IO => Severity::Error,
        ErrorKind::Unknown => Severity::Error,
    }
}

/// The bytes of a response, given what the file system said of the file
/// that its body names, or the kind of failure to resolve that body.
pub open spec fn response_wire(response: Response, probe: FileProbe) -> Result<Seq<u8>, ErrorKind> {
    match body_file(response.body, probe) {
        Ok(file) => Ok(wire(response.http_version@, response.status, response.headers@, file)),
        Err(kind) => Err(kind),
    }
}

/// The bytes of the response that goes with a kind of failure.
pub open spec fn error_wire(templates: Templates, kind: ErrorKind) -> Seq<u8> {
    wire(
        "HTTP/1.1"@,
        error_status(kind),
        Seq::empty(),
        Some(("response.html"@, encode_utf8(error_page(templates, kind)))),
    )
}

/// The bytes that are sent for the outcome of a request: those of the
/// response, or those of the page that goes with the failure.
pub open spec fn sent_wire(
    outcome: Result<Response, AppError>,
    probe: FileProbe,
    templates: Templates,
) -> Seq<u8> {
    match outcome {
        Ok(response) => match response_wire(response, probe) {
            Ok(bytes) => bytes,
            Err(kind) => error_wire(templates, kind),
        },
        Err(e) => error_wire(templates, e.kind()),
    }
}

/// The responses to failures.
pub struct ErrorHandler;

impl ErrorHandler {
    /// The response to a request for a page that does not exist, and the
    /// warning that goes to the log with it: it names the method and the
    /// path of the request.
    pub fn handle_invalid_page_request(
        http_method: HttpMethod,
        path: String,
        templates: &Templates,
    ) -> (r: (Response, String))
        ensures
            is_page(r.0, HttpStatus::NotFound, templates.page_not_found@),
            r.1@ == invalid_page_warning(http_method, path@),
    {
        let mut warning = chars_of("Invalid page request: ");
        let method = chars_of(http_method.as_str());
        warning.extend_from_slice(method.as_slice());
        warning.push(' ');
        let asked = chars_of(path.as_str());
        warning.extend_from_slice(asked.as_slice());
        assert(warning@ =~= invalid_page_warning(http_method, path@));
        (
            page(HttpStatus::NotFound, templates.page_not_found.clone()),
            string_of(warning.as_slice()),
        )
    }

    /// The response to a malformed request.
    pub fn handle_bad_request(templates: &Templates) -> (r: Response)
        ensures
            is_page(r, HttpStatus::NotFound, templates.bad_request@),
    {
        page(HttpStatus::NotFound, templates.bad_request.clone())
    }

    /// The response to a request that reaches outside the uploads
    /// directory.
    pub fn handle_access_denied(templates: &Templates) -> (r: Response)
        ensures
            is_page(r, HttpStatus::Forbidden, templates.access_denied@),
    {
        page(HttpStatus::Forbidden, templates.access_denied.clone())
    }

    /// The response to a request for a file that does not exist.
    pub fn handle_invalid_file_request(templates: &Templates) -> (r: Response)
        ensures
            is_page(r, HttpStatus::NotFound, templates.file_not_found@),
    {
        page(HttpStatus::NotFound, templates.file_not_found.clone())
    }

    /// The response to a failure of the server itself.
    pub fn handle_server_error(templates: &Templates) -> (r: Response)
        ensures
            is_page(r, HttpStatus::ServerError, templates.server_error@),
    {
        page(HttpStatus::ServerError, templates.server_error.clone())
    }

    /// Tells how loudly a failure is to be logged.
    pub fn severity(app_error: &AppError) -> (s: Severity)
        ensures
            s == error_severity(app_error.kind()),
    {
        match app_error {
            AppError::Invalid(_) => Severity::Warning,
            AppError::NotFound(_) => Severity::Warning,
            AppError::NotPermitted(_) => Severity::Warning,
            AppError::IO(_) => Severity::Error,
            AppError::Unknown(_) => Severity::Error,
        }
    }

    /// Maps a failure to its response: every kind has its status and its
    /// page.
    pub fn map_error_to_handler(app_error: &AppError, templates: &Templates) -> (r: Response)
        ensures
            is_page(
                r,
                error_status(app_error.kind()),
                error_page(*templates, app_error.kind()),
            ),
    {
        match app_error {
            AppError::Invalid(_) => ErrorHandler::handle_bad_request(templates),
            AppError::NotFound(_) => ErrorHandler::handle_invalid_file_request(templates),
            AppError::NotPermitted(_) => ErrorHandler::handle_access_denied(templates),
            AppError::IO(_) => ErrorHandler::handle_server_error(templates),
            AppError::Unknown(_) => ErrorHandler::handle_server_error(templates),
        }
    }

    /// Turns the outcome of a request into the bytes to send, whatever the
    /// outcome: the response where there is one and it can be serialised,
    /// else the page that goes with the failure. The failure, if any, is
    /// handed back for the log.
    pub fn response_bytes(
        outcome: Result<Response, AppError>,
        probe: FileProbe,
        templates: &Templates,
    ) -> (r: (Vec<u8>, Option<AppError>))
        ensures
            r.0@ == sent_wire(outcome, probe, *templates),
            match outcome {
                Ok(response) => match response_wire(response, probe) {
                    Ok(_) => r.1 is None,
                    Err(kind) => r.1 matches Some(e) && e.kind() == kind,
                },
                Err(e) => r.1 == Some(e),
            },
    {
        let failure = match outcome {
            Ok(response) => match response.to_bytes(probe) {
                Ok(bytes) => {
                    return (bytes, None);
                },
                Err(e) => e,
            },
            Err(e) => e,
        };
        let page = ErrorHandler::map_error_to_handler(&failure, templates);
        match page.to_bytes(FileProbe::Missing) {
            Ok(bytes) => (bytes, Some(failure)),
            Err(_) => (Vec::new(), Some(failure)),
        }
    }
}

/// A file is sent only where its canonical path lies under the canonical
/// path of the uploads directory: whatever the request path, the path of
/// the file that is sent has all the components of the root before its own.
pub proof fn lemma_view_is_contained(
    filename: Seq<char>,
    resolved: Option<Seq<char>>,
    base: Option<Seq<char>>,
    path: Seq<char>,
)
    requires
        view_outcome(filename, resolved, base) == Ok::<_, ErrorKind>(path),
    ensures
        resolved == Some(path),
        base is Some,
        begins_with(components(path), components(base->0)),
        valid_filename(view_name(filename)),
{
}

/// A path that resolves outside the uploads directory, or not at all, is
/// never answered with a file, whatever its name: the request is not
/// permitted where the path exists elsewhere, and the file is not found
/// where the path does not exist.
pub proof fn lemma_view_outside_fails(
    filename: Seq<char>,
    resolved: Option<Seq<char>>,
    base: Seq<char>,
)
    requires
        resolved matches Some(path) ==> !begins_with(components(path), components(base)),
    ensures
        view_outcome(filename, resolved, Some(base)) == (if resolved is Some {
            Err::<Seq<char>, _>(ErrorKind::NotPermitted)
        } else {
            Err::<Seq<char>, _>(ErrorKind::NotFound)
        }),
{
}

/// An upload is accepted only with a file name that has an allowed
/// extension, and only to a path that, with `.` and `..` taken out by the
/// letter, begins with the uploads directory.
pub proof fn lemma_upload_is_checked(body: Option<(Seq<char>, Seq<u8>)>)
    requires
        upload_outcome(body) is Ok,
    ensures
        body matches Some((name, content)) && {
            &&& extension(name) matches Some(ext) && allowed_extension(ext)
            &&& upload_outcome(body) == Ok::<_, ErrorKind>((upload_path(name), content))
            &&& begins_with(normalized(components(upload_path(name))), components("uploads/"@))
        },
{
}

/// A file name without an allowed extension is refused as invalid.
pub proof fn lemma_upload_refuses_other_extensions(name: Seq<char>, content: Seq<u8>)
    requires
        !(extension(name) matches Some(ext) && allowed_extension(ext)),
    ensures
        upload_outcome(Some((name, content))) == Err::<(Seq<char>, Seq<u8>), _>(
            ErrorKind::Invalid,
        ),
        !valid_filename(name),
{
}

/// Every kind of failure has its status, its page and its severity, and
/// the status is one of the three that stand for a failure.
pub proof fn lemma_error_mapping_is_total(kind: ErrorKind)
    ensures
        error_status(kind) == HttpStatus::NotFound || error_status(kind) == HttpStatus::Forbidden
            || error_status(kind) == HttpStatus::ServerError,
        error_severity(kind) == Severity::Error <==> error_status(kind) == HttpStatus::ServerError,
{
}

/// An upload of a file with a plain name and an allowed extension is
/// accepted on the upload route, and the file is written under the
/// uploads directory by that name, with the content that was sent.
pub proof fn lemma_plain_upload_is_accepted(name: Seq<char>, content: Seq<u8>)
    requires
        is_plain_name(name),
        valid_filename(name),
    ensures
        route_of(HttpMethod::Post, "/upload"@) == Route::Upload,
        upload_outcome(Some((name, content))) == Ok::<_, ErrorKind>(
            ("uploads"@ + seq!['/'] + name, content),
        ),
{
    reveal_strlit("uploads");
    reveal_strlit("uploads/");
    let dir = "uploads"@;
    assert(is_plain_name(dir)) by {
        assert forall|i: int| 0 <= i < dir.len() implies #[trigger] dir[i] != '/' by {}
        assert(dir.len() == 7);
    }
    assert("uploads/"@ =~= dir + seq!['/']);
    lemma_join_plain_names(dir, name);
}

/// A name made of a stem without `/`, a `.` and an allowed extension is
/// a plain name that is served and accepted, whatever the stem.
pub proof fn lemma_allowed_names_are_valid(stem: Seq<char>, ending: Seq<char>)
    requires
        stem.len() > 0,
        forall|i: int| 0 <= i < stem.len() ==> #[trigger] stem[i] != '/',
        allowed_extension(ending),
    ensures
        is_plain_name(stem + seq!['.'] + ending),
        extension(stem + seq!['.'] + ending) == Some(ending),
        valid_filename(stem + seq!['.'] + ending),
{
    reveal_strlit("txt");
    reveal_strlit("png");
    reveal_strlit("jpg");
    reveal_strlit("pdf");
    let name = stem + seq!['.'] + ending;
    assert(ending.len() == 3);
    assert forall|i: int| 0 <= i < ending.len() implies #[trigger] ending[i] != '.' && ending[i]
        != '/' by {}
    assert forall|i: int| 0 <= i < name.len() implies #[trigger] name[i] != '/' by {
        if i < stem.len() {
            assert(name[i] == stem[i]);
        } else if i > stem.len() {
            assert(name[i] == ending[i - stem.len() - 1]);
        }
    }
    assert(name.len() >= 5);
    lemma_plain_name_is_file_name(name);
    lemma_extension_of_name(stem, ending);
}

} // verus!
