use fileserve::common::{AppError, BufferedFile, ErrorKind, FileProbe};
use fileserve::handlers::{
    ErrorHandler, RequestHandler, Route, Router, Severity, Step, Templates,
};
use fileserve::listing::{DirEntry, FileManager};
use fileserve::request::{HttpMethod, Request, RequestBody};
use fileserve::response::{HttpStatus, Response, ResponseBody};

fn templates() -> Templates {
    Templates {
        access_denied: "<h1>denied</h1>".to_string(),
        bad_request: "<h1>bad</h1>".to_string(),
        file_not_found: "<h1>no file</h1>".to_string(),
        index: "<ul>\n{{FILES_LIST}}\n</ul>".to_string(),
        page_not_found: "<h1>no page</h1>".to_string(),
        server_error: "<h1>broken</h1>".to_string(),
        upload: "<form></form>".to_string(),
    }
}

fn kind<T>(r: Result<T, AppError>) -> ErrorKind {
    match r {
        Ok(_) => panic!("expected a failure"),
        Err(e) => e.get_kind(),
    }
}

fn text_of(r: &Response) -> &str {
    match &r.body {
        ResponseBody::Text(t) => t,
        _ => panic!("expected a text body"),
    }
}

fn file(name: &str, content: &[u8]) -> RequestBody {
    RequestBody::Multipart(BufferedFile { name: name.to_string(), content: content.to_vec() })
}

fn get(path: &str) -> Request {
    Request::try_new(format!("GET {path} HTTP/1.1\r\n\r\n").as_bytes()).unwrap()
}

#[test]
fn allowed_extensions_are_accepted() {
    assert!(RequestHandler::validate_filename("x.txt").is_ok());
    assert!(RequestHandler::validate_filename("x.png").is_ok());
    assert!(RequestHandler::validate_filename("x.jpg").is_ok());
    assert!(RequestHandler::validate_filename("x.pdf").is_ok());
    assert!(RequestHandler::validate_filename("dir/sub/x.pdf").is_ok());
}

#[test]
fn other_names_are_invalid() {
    for name in ["x.exe", "x", "", ".txt", "x.TXT", "x.txt.exe", "x.jpeg", "..", "dir/", "x.txt/.."] {
        assert_eq!(kind(RequestHandler::validate_filename(name)), ErrorKind::Invalid, "{}", name);
    }
}

#[test]
fn traversals_are_taken_out_by_the_letter() {
    assert_eq!(RequestHandler::resolve_traversals("uploads/a/../b.txt"), "uploads/b.txt");
    assert_eq!(RequestHandler::resolve_traversals("uploads/../../etc/passwd"), "etc/passwd");
    assert_eq!(RequestHandler::resolve_traversals("uploads/./x.txt"), "uploads/x.txt");
    assert_eq!(RequestHandler::resolve_traversals("/../x"), "/x");
}

#[test]
fn upload_is_accepted_and_redirects() {
    let (order, response) = RequestHandler::upload_file(file("note.txt", b"hi")).unwrap();
    assert_eq!(order.path, "uploads/note.txt");
    assert_eq!(order.content, b"hi".to_vec());
    assert_eq!(response.status, HttpStatus::SeeOther);
    assert_eq!(response.headers.len(), 1);
    assert_eq!(response.headers.get("Location").unwrap(), "/");
    assert!(matches!(response.body, ResponseBody::Empty));
}

#[test]
fn upload_without_a_file_is_invalid() {
    assert_eq!(kind(RequestHandler::upload_file(RequestBody::Empty)), ErrorKind::Invalid);
}

#[test]
fn upload_with_a_name_that_is_not_accepted_is_invalid() {
    assert_eq!(kind(RequestHandler::upload_file(file("x.exe", b"MZ"))), ErrorKind::Invalid);
    assert_eq!(kind(RequestHandler::upload_file(file("", b""))), ErrorKind::Invalid);
    assert_eq!(kind(RequestHandler::upload_file(file("../../etc/passwd", b""))), ErrorKind::Invalid);
}

#[test]
fn upload_that_leaves_the_directory_is_not_permitted() {
    assert_eq!(kind(RequestHandler::upload_file(file("../x.txt", b""))), ErrorKind::NotPermitted);
    assert_eq!(
        kind(RequestHandler::upload_file(file("a/../../x.txt", b""))),
        ErrorKind::NotPermitted
    );
    assert_eq!(kind(RequestHandler::upload_file(file("/etc/x.txt", b""))), ErrorKind::NotPermitted);
    assert_eq!(
        kind(RequestHandler::upload_file(file("../uploads2/x.txt", b""))),
        ErrorKind::NotPermitted
    );
}

#[test]
fn upload_check_is_lexical_only() {
    let (order, _) = RequestHandler::upload_file(file("a/../x.txt", b"1")).unwrap();
    assert_eq!(order.path, "uploads/a/../x.txt");
    let (order, _) = RequestHandler::upload_file(file("../uploads/x.txt", b"1")).unwrap();
    assert_eq!(order.path, "uploads/../uploads/x.txt");
    let (order, _) = RequestHandler::upload_file(file("sub/x.txt", b"1")).unwrap();
    assert_eq!(order.path, "uploads/sub/x.txt");
}

#[test]
fn view_targets() {
    assert_eq!(RequestHandler::view_target("/uploads/a.txt"), "uploads/a.txt");
    assert_eq!(RequestHandler::view_target("///uploads/uploads/a.txt"), "uploads/a.txt");
    assert_eq!(RequestHandler::view_target("a.txt"), "uploads/a.txt");
    assert_eq!(RequestHandler::view_target("/uploads/../../etc/passwd"), "uploads/../../etc/passwd");
    assert_eq!(RequestHandler::view_target("/uploads//etc/x.txt"), "/etc/x.txt");
}

#[test]
fn view_sends_a_file_under_the_root() {
    let r = RequestHandler::view_file(
        "/uploads/a.txt".to_string(),
        Some("/srv/uploads/a.txt".to_string()),
        Some("/srv/uploads".to_string()),
    )
    .unwrap();
    assert_eq!(r.status, HttpStatus::Success);
    assert_eq!(r.headers.len(), 0);
    assert_eq!(r.file_path().unwrap(), "/srv/uploads/a.txt");
}

#[test]
fn view_outside_the_root_is_not_permitted() {
    let r = RequestHandler::view_file(
        "/uploads/link.txt".to_string(),
        Some("/etc/secret.txt".to_string()),
        Some("/srv/uploads".to_string()),
    );
    assert_eq!(kind(r), ErrorKind::NotPermitted);
    let r = RequestHandler::view_file(
        "/uploads/../uploads2/a.txt".to_string(),
        Some("/srv/uploads2/a.txt".to_string()),
        Some("/srv/uploads".to_string()),
    );
    assert_eq!(kind(r), ErrorKind::NotPermitted);
}

#[test]
fn view_of_a_missing_file_is_not_found() {
    let r = RequestHandler::view_file(
        "/uploads/a.txt".to_string(),
        None,
        Some("/srv/uploads".to_string()),
    );
    assert_eq!(kind(r), ErrorKind::NotFound);
    let r = RequestHandler::view_file("/uploads/a.txt".to_string(), None, None);
    assert_eq!(kind(r), ErrorKind::NotFound);
}

#[test]
fn view_without_a_root_is_unknown() {
    let r = RequestHandler::view_file(
        "/uploads/a.txt".to_string(),
        Some("/srv/uploads/a.txt".to_string()),
        None,
    );
    assert_eq!(kind(r), ErrorKind::Unknown);
}

#[test]
fn view_never_leaves_the_uploads_directory() {
    for name in [
        "../../etc/passwd",
        "/uploads/../../etc/passwd",
        "../../etc/passwd.txt",
        "/uploads/../../etc/passwd.txt",
    ] {
        let missing =
            RequestHandler::view_file(name.to_string(), None, Some("/srv/uploads".to_string()));
        assert_eq!(kind(missing), ErrorKind::NotFound, "{}", name);
        let outside = RequestHandler::view_file(
            name.to_string(),
            Some("/etc/passwd".to_string()),
            Some("/srv/uploads".to_string()),
        );
        assert_eq!(kind(outside), ErrorKind::NotPermitted, "{}", name);
    }
}

#[test]
fn view_under_the_root_is_held_to_the_rules_for_names() {
    let r = RequestHandler::view_file(
        "/uploads/run.exe".to_string(),
        Some("/srv/uploads/run.exe".to_string()),
        Some("/srv/uploads".to_string()),
    );
    assert_eq!(kind(r), ErrorKind::Invalid);
    let r = RequestHandler::view_file(
        "/uploads".to_string(),
        Some("/srv/uploads".to_string()),
        Some("/srv/uploads".to_string()),
    );
    assert_eq!(kind(r), ErrorKind::Invalid);
    let r = RequestHandler::view_file("/uploads/run.exe".to_string(), None, None);
    assert_eq!(kind(r), ErrorKind::NotFound);
    let r = RequestHandler::view_file(
        "/uploads/run.exe".to_string(),
        Some("/etc/run.exe".to_string()),
        Some("/srv/uploads".to_string()),
    );
    assert_eq!(kind(r), ErrorKind::NotPermitted);
}

#[test]
fn routes() {
    assert_eq!(Router::route(HttpMethod::Get, "/"), Route::Index);
    assert_eq!(Router::route(HttpMethod::Get, "/uploads/a.txt"), Route::View);
    assert_eq!(Router::route(HttpMethod::Get, "/uploads"), Route::View);
    assert_eq!(Router::route(HttpMethod::Get, "/uploadsx"), Route::View);
    assert_eq!(Router::route(HttpMethod::Get, "/upload"), Route::Form);
    assert_eq!(Router::route(HttpMethod::Post, "/upload"), Route::Upload);
    assert_eq!(Router::route(HttpMethod::Post, "/"), Route::Unrouted);
    assert_eq!(Router::route(HttpMethod::Post, "/uploads/a.txt"), Route::Unrouted);
    assert_eq!(Router::route(HttpMethod::Get, "/other"), Route::Unrouted);
    assert_eq!(Router::route(HttpMethod::Get, ""), Route::Unrouted);
    assert_eq!(Router::route(HttpMethod::Delete, "/upload"), Route::Unrouted);
    assert_eq!(Router::route(HttpMethod::Head, "/"), Route::Unrouted);
}

#[test]
fn index_route_asks_for_the_listing() {
    assert!(matches!(Router::route_request(get("/"), &templates()), Ok(Step::List)));
}

#[test]
fn view_route_asks_for_the_canonical_path() {
    match Router::route_request(get("/uploads/sub/a.txt"), &templates()).unwrap() {
        Step::Resolve { filename, target } => {
            assert_eq!(filename, "/uploads/sub/a.txt");
            assert_eq!(target, "uploads/sub/a.txt");
        }
        _ => panic!("expected a path to resolve"),
    }
}

#[test]
fn view_route_asks_for_the_canonical_path_whatever_the_name() {
    for (path, expected) in [
        ("/uploads/a.exe", "uploads/a.exe"),
        ("/uploads", "uploads/uploads"),
        ("/uploads/", "uploads/"),
        ("/uploads/../../etc/passwd", "uploads/../../etc/passwd"),
    ] {
        match Router::route_request(get(path), &templates()).unwrap() {
            Step::Resolve { filename, target } => {
                assert_eq!(filename, path);
                assert_eq!(target, expected);
            }
            _ => panic!("expected a path to resolve"),
        }
    }
}

#[test]
fn form_route_sends_the_form() {
    match Router::route_request(get("/upload"), &templates()).unwrap() {
        Step::Respond(r) => {
            assert_eq!(r.status, HttpStatus::Success);
            assert_eq!(text_of(&r), "<form></form>");
        }
        _ => panic!("expected a response"),
    }
}

#[test]
fn unknown_route_sends_the_page_for_it() {
    match Router::route_request(get("/nowhere"), &templates()).unwrap() {
        Step::Unrouted { response, warning } => {
            assert_eq!(response.status, HttpStatus::NotFound);
            assert_eq!(text_of(&response), "<h1>no page</h1>");
            assert_eq!(warning, "Invalid page request: GET /nowhere");
        }
        _ => panic!("expected a response with a warning"),
    }
}

#[test]
fn upload_end_to_end() {
    let body = "--XX\r\nContent-Disposition: form-data; name=\"file\"; filename=\"note.txt\"\r\nContent-Type: text/plain\r\n\r\nhi\r\n--XX--\r\n";
    let stream = format!(
        "POST /upload HTTP/1.1\r\nHost: localhost\r\nContent-Type: multipart/form-data; boundary=XX\r\nContent-Length: {}\r\n\r\n{body}",
        body.len()
    );
    let request = Request::try_new(stream.as_bytes()).unwrap();
    let (order, response) = match Router::route_request(request, &templates()).unwrap() {
        Step::Save { order, response } => (order, response),
        _ => panic!("expected a file to save"),
    };
    assert_eq!(order.path, "uploads/note.txt");
    assert_eq!(order.content, b"hi".to_vec());
    let (wire, failure) = ErrorHandler::response_bytes(Ok(response), FileProbe::Missing, &templates());
    assert!(failure.is_none());
    assert_eq!(
        wire,
        b"HTTP/1.1 303 SEE OTHER\r\nLocation: /\r\nContent-Length: 0\r\n\r\n".to_vec()
    );
}

#[test]
fn listing_after_the_upload_links_to_the_file() {
    let files = FileManager::list_files_with_paths(&vec![DirEntry::File {
        name: "note.txt".to_string(),
        path: "uploads/note.txt".to_string(),
    }]);
    let r = RequestHandler::list_files(&templates(), &files);
    assert_eq!(r.status, HttpStatus::Success);
    assert_eq!(
        text_of(&r),
        "<ul>\n<li><a href=\"uploads/note.txt\">note.txt</a></li>\n</ul>"
    );
    let (wire, _) = ErrorHandler::response_bytes(Ok(r), FileProbe::Missing, &templates());
    assert!(wire.starts_with(b"HTTP/1.1 200 OK\r\n"));
    let page = String::from_utf8(wire).unwrap();
    assert!(page.contains("href=\"uploads/note.txt\""));
}

#[test]
fn listing_of_several_files_and_of_none() {
    let files = vec![
        ("a.txt".to_string(), "uploads/a.txt".to_string()),
        ("d/b.png".to_string(), "uploads/d/b.png".to_string()),
    ];
    let r = RequestHandler::list_files(&templates(), &files);
    assert_eq!(
        text_of(&r),
        "<ul>\n<li><a href=\"uploads/a.txt\">a.txt</a></li>\n<li><a href=\"uploads/d/b.png\">d/b.png</a></li>\n</ul>"
    );
    let r = RequestHandler::list_files(&templates(), &Vec::new());
    assert_eq!(text_of(&r), "<ul>\n\n</ul>");
}

#[test]
fn directory_trees_are_listed_depth_first() {
    let tree = vec![
        DirEntry::File { name: "a.txt".to_string(), path: "uploads/a.txt".to_string() },
        DirEntry::Dir {
            name: "d".to_string(),
            entries: vec![
                DirEntry::Dir { name: "empty".to_string(), entries: vec![] },
                DirEntry::Dir {
                    name: "e".to_string(),
                    entries: vec![DirEntry::File {
                        name: "c.pdf".to_string(),
                        path: "uploads/d/e/c.pdf".to_string(),
                    }],
                },
                DirEntry::File { name: "b.png".to_string(), path: "uploads/d/b.png".to_string() },
            ],
        },
        DirEntry::File { name: "z.jpg".to_string(), path: "uploads/z.jpg".to_string() },
    ];
    let files = FileManager::list_files_with_paths(&tree);
    let expected: Vec<(String, String)> = [
        ("a.txt", "uploads/a.txt"),
        ("d/e/c.pdf", "uploads/d/e/c.pdf"),
        ("d/b.png", "uploads/d/b.png"),
        ("z.jpg", "uploads/z.jpg"),
    ]
    .iter()
    .map(|(n, p)| (n.to_string(), p.to_string()))
    .collect();
    assert_eq!(files, expected);
    assert_eq!(FileManager::list_files_with_paths(&Vec::new()), Vec::new());
}

#[test]
fn traversal_appends_to_what_is_there() {
    let mut files = vec![("x".to_string(), "y".to_string())];
    FileManager::traverse_dir(
        &vec![DirEntry::File { name: "a".to_string(), path: "p/a".to_string() }],
        &mut files,
        "sub".to_string(),
    );
    assert_eq!(
        files,
        vec![("x".to_string(), "y".to_string()), ("sub/a".to_string(), "p/a".to_string())]
    );
}

#[test]
fn every_kind_of_failure_has_its_page() {
    let t = templates();
    let cases = [
        (AppError::Invalid("m".to_string()), HttpStatus::NotFound, "<h1>bad</h1>", Severity::Warning),
        (AppError::NotFound("m".to_string()), HttpStatus::NotFound, "<h1>no file</h1>", Severity::Warning),
        (AppError::NotPermitted("m".to_string()), HttpStatus::Forbidden, "<h1>denied</h1>", Severity::Warning),
        (AppError::IO("m".to_string()), HttpStatus::ServerError, "<h1>broken</h1>", Severity::Error),
        (AppError::Unknown("m".to_string()), HttpStatus::ServerError, "<h1>broken</h1>", Severity::Error),
    ];
    for (error, status, page, severity) in cases {
        let r = ErrorHandler::map_error_to_handler(&error, &t);
        assert_eq!(r.status, status);
        assert_eq!(text_of(&r), page);
        assert_eq!(r.headers.len(), 0);
        assert_eq!(ErrorHandler::severity(&error), severity);
    }
}

#[test]
fn the_handlers_of_failures() {
    let t = templates();
    let (r, warning) =
        ErrorHandler::handle_invalid_page_request(HttpMethod::Delete, "/x".to_string(), &t);
    assert_eq!((r.status, text_of(&r)), (HttpStatus::NotFound, "<h1>no page</h1>"));
    assert_eq!(warning, "Invalid page request: DELETE /x");
    let r = ErrorHandler::handle_bad_request(&t);
    assert_eq!((r.status, text_of(&r)), (HttpStatus::NotFound, "<h1>bad</h1>"));
    let r = ErrorHandler::handle_access_denied(&t);
    assert_eq!((r.status, text_of(&r)), (HttpStatus::Forbidden, "<h1>denied</h1>"));
    let r = ErrorHandler::handle_invalid_file_request(&t);
    assert_eq!((r.status, text_of(&r)), (HttpStatus::NotFound, "<h1>no file</h1>"));
    let r = ErrorHandler::handle_server_error(&t);
    assert_eq!((r.status, text_of(&r)), (HttpStatus::ServerError, "<h1>broken</h1>"));
    let r = RequestHandler::get_file_upload_view(&t);
    assert_eq!((r.status, text_of(&r)), (HttpStatus::Success, "<form></form>"));
}

#[test]
fn a_failure_is_answered_with_its_page() {
    let t = templates();
    let (wire, failure) = ErrorHandler::response_bytes(
        Err(AppError::NotPermitted("traversal".to_string())),
        FileProbe::Missing,
        &t,
    );
    assert_eq!(
        wire,
        b"HTTP/1.1 403 FORBIDDEN\r\nContent-Length: 15\r\nContent-Type: text/html; charset=UTF-8\r\n\r\n<h1>denied</h1>"
            .to_vec()
    );
    assert_eq!(failure.unwrap().message(), "traversal");
}

#[test]
fn a_response_that_cannot_be_serialised_is_answered_with_a_page() {
    let t = templates();
    let r = Response::builder().body(ResponseBody::File("uploads/gone.txt".to_string())).build();
    let (wire, failure) = ErrorHandler::response_bytes(Ok(r), FileProbe::Missing, &t);
    assert_eq!(
        wire,
        b"HTTP/1.1 404 NOT FOUND\r\nContent-Length: 16\r\nContent-Type: text/html; charset=UTF-8\r\n\r\n<h1>no file</h1>"
            .to_vec()
    );
    assert_eq!(failure.unwrap().get_kind(), ErrorKind::NotFound);
    let r = Response::builder().body(ResponseBody::File("uploads/a.txt".to_string())).build();
    let (wire, failure) = ErrorHandler::response_bytes(Ok(r), FileProbe::Unreadable, &t);
    assert!(wire.starts_with(b"HTTP/1.1 500 SERVER ERROR\r\n"));
    assert_eq!(failure.unwrap().get_kind(), ErrorKind::IO);
}

#[test]
fn a_file_is_served_whole() {
    let t = templates();
    let r = Response::builder().body(ResponseBody::File("/srv/uploads/a.png".to_string())).build();
    let (wire, failure) = ErrorHandler::response_bytes(Ok(r), FileProbe::Content(vec![1, 2, 3]), &t);
    assert!(failure.is_none());
    let mut expected = b"HTTP/1.1 200 OK\r\nContent-Length: 3\r\nContent-Type: image/png\r\nContent-Disposition: inline; filename=\"a.png\"\r\n\r\n".to_vec();
    expected.extend_from_slice(&[1, 2, 3]);
    assert_eq!(wire, expected);
}

#[test]
fn refusals_say_what_they_are_about() {
    let message = |r: Result<(), AppError>| match r {
        Err(e) => e.message().clone(),
        Ok(_) => panic!("expected a failure"),
    };
    assert_eq!(
        message(RequestHandler::validate_filename("x.exe")),
        "Filename has an unsupported extension: x.exe"
    );
    assert_eq!(
        message(RequestHandler::validate_filename("a/..")),
        "Filename is not a valid UTF-8 file name: a/.."
    );
    match RequestHandler::view_file("/uploads/a.txt".to_string(), None, None) {
        Err(e) => assert_eq!(
            e.message(),
            "Client attempted to access a file that does not exist: uploads/a.txt"
        ),
        Ok(_) => panic!("expected a failure"),
    }
    match RequestHandler::view_file(
        "/uploads/a.txt".to_string(),
        Some("/etc/a.txt".to_string()),
        Some("/srv/uploads".to_string()),
    ) {
        Err(e) => assert_eq!(
            e.message(),
            "Client attempted to access a path outside the uploads directory: /etc/a.txt"
        ),
        Ok(_) => panic!("expected a failure"),
    }
    match fileserve::common::BufferedFile::try_from("dir/a.txt", FileProbe::Unreadable) {
        Err(e) => assert_eq!(e.message(), "Error reading file into buffer: a.txt"),
        Ok(_) => panic!("expected a failure"),
    }
}

#[test]
fn upload_of_a_note_from_the_bytes_to_the_bytes() {
    let body = "--XYZ\r\nContent-Disposition: form-data; name=\"file\"; filename=\"note.txt\"\r\nContent-Type: text/plain\r\n\r\nhi\r\n--XYZ--\r\n";
    let stream = format!(
        "POST /upload HTTP/1.1\r\nContent-Type: multipart/form-data; boundary=XYZ\r\nContent-Length: {}\r\n\r\n{body}",
        body.len()
    );
    assert_eq!(Request::pending(stream.as_bytes()), fileserve::request::Pending::Nothing);
    let request = Request::try_new(stream.as_bytes()).unwrap();
    assert_eq!(request.method, HttpMethod::Post);
    assert_eq!(request.path, "/upload");
    assert_eq!(request.http_version, "HTTP/1.1");
    assert_eq!(request.headers.len(), 2);
    assert_eq!(request.headers.name_at(0), "Content-Type");
    assert_eq!(request.headers.value_at(0), "multipart/form-data; boundary=XYZ");
    assert_eq!(request.headers.name_at(1), "Content-Length");
    assert_eq!(request.headers.value_at(1), &body.len().to_string());
    let (order, response) = match Router::route_request(request, &templates()).unwrap() {
        Step::Save { order, response } => (order, response),
        _ => panic!("expected a file to save"),
    };
    assert_eq!(order.path, "uploads/note.txt");
    assert_eq!(order.content, b"hi".to_vec());
    let (wire, failure) =
        ErrorHandler::response_bytes(Ok(response), FileProbe::Missing, &templates());
    assert!(failure.is_none());
    assert_eq!(
        wire,
        b"HTTP/1.1 303 SEE OTHER\r\nLocation: /\r\nContent-Length: 0\r\n\r\n".to_vec()
    );
}

#[test]
fn the_file_a_txt_is_served_with_its_length_and_found_again() {
    for content in [b"".to_vec(), b"\r\n\r\nx\r\n\r\n".to_vec(), vec![0xff, 0x00, 0x0a, 0x0d]] {
        let r = RequestHandler::view_file(
            "/uploads/a.txt".to_string(),
            Some("/srv/uploads/a.txt".to_string()),
            Some("/srv/uploads".to_string()),
        )
        .unwrap();
        let (wire, failure) =
            ErrorHandler::response_bytes(Ok(r), FileProbe::Content(content.clone()), &templates());
        assert!(failure.is_none());
        let mut expected = format!(
            "HTTP/1.1 200 OK\r\nContent-Length: {}\r\nContent-Type: text/plain\r\nContent-Disposition: inline; filename=\"a.txt\"\r\n\r\n",
            content.len()
        )
        .into_bytes();
        let head = expected.len();
        expected.extend_from_slice(&content);
        assert_eq!(wire, expected);
        let at = wire.windows(4).position(|w| w == b"\r\n\r\n").unwrap();
        assert_eq!(at + 4, head);
        assert_eq!(&wire[at + 4..], &content[..]);
    }
}
