use fileserve::common::{AppError, BufferedFile, ErrorKind, FileProbe};
use fileserve::headers::Headers;
use fileserve::response::{
    write_head, HttpHeader, HttpStatus, Response, ResponseBody, ResponseBuilder,
};

fn kind<T>(r: Result<T, AppError>) -> ErrorKind {
    match r {
        Ok(_) => panic!("expected a failure"),
        Err(e) => e.get_kind(),
    }
}

fn body_of(wire: &[u8]) -> &[u8] {
    let at = wire.windows(4).position(|w| w == b"\r\n\r\n").expect("no blank line");
    &wire[at + 4..]
}

#[test]
fn status_codes_and_phrases() {
    assert_eq!(HttpStatus::Success.get_status_code(), 200);
    assert_eq!(HttpStatus::SeeOther.get_status_code(), 303);
    assert_eq!(HttpStatus::Forbidden.get_status_code(), 403);
    assert_eq!(HttpStatus::NotFound.get_status_code(), 404);
    assert_eq!(HttpStatus::ServerError.get_status_code(), 500);
    assert_eq!(HttpStatus::Success.get_reason_phrase(), "OK");
    assert_eq!(HttpStatus::SeeOther.get_reason_phrase(), "SEE OTHER");
    assert_eq!(HttpStatus::Forbidden.get_reason_phrase(), "FORBIDDEN");
    assert_eq!(HttpStatus::NotFound.get_reason_phrase(), "NOT FOUND");
    assert_eq!(HttpStatus::ServerError.get_reason_phrase(), "SERVER ERROR");
}

#[test]
fn header_names() {
    assert_eq!(HttpHeader::CONTENT_LENGTH, "Content-Length");
    assert_eq!(HttpHeader::CONTENT_TYPE, "Content-Type");
    assert_eq!(HttpHeader::CONTENT_DISPOSITION, "Content-Disposition");
    assert_eq!(HttpHeader::LOCATION, "Location");
}

#[test]
fn media_types_by_extension() {
    assert_eq!(Response::get_content_type("index.html"), "text/html; charset=UTF-8");
    assert_eq!(Response::get_content_type("a.css"), "text/css");
    assert_eq!(Response::get_content_type("a.js"), "application/javascript");
    assert_eq!(Response::get_content_type("a.png"), "image/png");
    assert_eq!(Response::get_content_type("a.jpg"), "image/jpeg");
    assert_eq!(Response::get_content_type("a.jpeg"), "image/jpeg");
    assert_eq!(Response::get_content_type("a.gif"), "image/gif");
    assert_eq!(Response::get_content_type("a.pdf"), "application/pdf");
    assert_eq!(Response::get_content_type("a.json"), "application/json");
    assert_eq!(Response::get_content_type("dir/a.txt"), "text/plain");
    assert_eq!(Response::get_content_type("a.exe"), "application/octet-stream");
    assert_eq!(Response::get_content_type("a"), "application/octet-stream");
    assert_eq!(Response::get_content_type("a.TXT"), "application/octet-stream");
    assert_eq!(Response::get_content_type(".html"), "application/octet-stream");
    assert_eq!(Response::get_content_type(""), "application/octet-stream");
}

#[test]
fn builder_defaults() {
    let r = ResponseBuilder::new().build();
    assert_eq!(r.http_version, "HTTP/1.1");
    assert_eq!(r.status, HttpStatus::Success);
    assert_eq!(r.headers.len(), 0);
    assert!(matches!(r.body, ResponseBody::Empty));
    assert!(r.file_path().is_none());
}

#[test]
fn builder_sets_each_part() {
    let r = Response::builder()
        .status(HttpStatus::SeeOther)
        .header("Location", "/")
        .header("X-A", "1")
        .header("Location", "/next")
        .body(ResponseBody::File("uploads/a.txt".to_string()))
        .build();
    assert_eq!(r.status, HttpStatus::SeeOther);
    assert_eq!(r.headers.len(), 2);
    assert_eq!(r.headers.get("Location").unwrap(), "/next");
    assert_eq!(r.headers.get("X-A").unwrap(), "1");
    assert_eq!(r.file_path().unwrap(), "uploads/a.txt");
}

#[test]
fn empty_body_on_the_wire() {
    let r = Response::builder().status(HttpStatus::SeeOther).header("Location", "/").build();
    let wire = r.to_bytes(FileProbe::Missing).unwrap();
    assert_eq!(
        wire,
        b"HTTP/1.1 303 SEE OTHER\r\nLocation: /\r\nContent-Length: 0\r\n\r\n".to_vec()
    );
}

#[test]
fn text_body_on_the_wire() {
    let r = Response::builder().body(ResponseBody::Text("<p>h\u{e9}</p>".to_string())).build();
    let wire = r.to_bytes(FileProbe::Missing).unwrap();
    assert_eq!(
        wire,
        "HTTP/1.1 200 OK\r\nContent-Length: 10\r\nContent-Type: text/html; charset=UTF-8\r\n\r\n<p>h\u{e9}</p>"
            .as_bytes()
            .to_vec()
    );
}

#[test]
fn file_body_on_the_wire() {
    let r = Response::builder().body(ResponseBody::File("/srv/uploads/a.txt".to_string())).build();
    let wire = r.to_bytes(FileProbe::Content(vec![0, 1, 2, 255])).unwrap();
    let mut expected =
        b"HTTP/1.1 200 OK\r\nContent-Length: 4\r\nContent-Type: text/plain\r\nContent-Disposition: inline; filename=\"a.txt\"\r\n\r\n"
            .to_vec();
    expected.extend_from_slice(&[0, 1, 2, 255]);
    assert_eq!(wire, expected);
}

#[test]
fn computed_headers_override_those_of_the_caller() {
    let r = Response::builder()
        .header("Content-Length", "999")
        .header("X-Keep", "yes")
        .header("Content-Type", "text/weird")
        .body(ResponseBody::Text("abc".to_string()))
        .build();
    let wire = r.to_bytes(FileProbe::Missing).unwrap();
    assert_eq!(
        wire,
        b"HTTP/1.1 200 OK\r\nContent-Length: 3\r\nX-Keep: yes\r\nContent-Type: text/html; charset=UTF-8\r\n\r\nabc"
            .to_vec()
    );
}

#[test]
fn round_trip_of_a_file_body() {
    for content in [
        b"".to_vec(),
        b"hi".to_vec(),
        b"\r\n\r\nframed\r\n\r\n".to_vec(),
        (0u8..=255).collect::<Vec<u8>>(),
    ] {
        let r = Response::builder().body(ResponseBody::File("uploads/a.txt".to_string())).build();
        let wire = r.to_bytes(FileProbe::Content(content.clone())).unwrap();
        assert_eq!(body_of(&wire), &content[..]);
    }
}

#[test]
fn file_body_that_does_not_resolve() {
    let file = || Response::builder().body(ResponseBody::File("uploads/a.txt".to_string())).build();
    assert_eq!(kind(file().to_bytes(FileProbe::Missing)), ErrorKind::NotFound);
    assert_eq!(kind(file().to_bytes(FileProbe::Directory)), ErrorKind::NotFound);
    assert_eq!(kind(file().to_bytes(FileProbe::Unopenable)), ErrorKind::NotFound);
    assert_eq!(kind(file().to_bytes(FileProbe::Unreadable)), ErrorKind::IO);
    let nameless = Response::builder().body(ResponseBody::File("uploads/..".to_string())).build();
    assert_eq!(kind(nameless.to_bytes(FileProbe::Content(vec![1]))), ErrorKind::Invalid);
}

#[test]
fn bodies_resolve_to_files() {
    let f = ResponseBody::Text("x".to_string()).into_file(FileProbe::Missing).unwrap().unwrap();
    assert_eq!(f.name, "response.html");
    assert_eq!(f.content, b"x".to_vec());
    assert!(ResponseBody::Empty.into_file(FileProbe::Content(vec![1])).unwrap().is_none());
    let f = ResponseBody::File("a/b/c.png".to_string())
        .into_file(FileProbe::Content(vec![7]))
        .unwrap()
        .unwrap();
    assert_eq!(f.name, "c.png");
    assert_eq!(f.content, vec![7]);
}

#[test]
fn probes_become_files_or_failures() {
    let f: BufferedFile = BufferedFile::try_from("dir/a.txt", FileProbe::Content(vec![1, 2])).unwrap();
    assert_eq!(f.name, "a.txt");
    assert_eq!(f.content, vec![1, 2]);
    assert_eq!(kind(BufferedFile::try_from("dir/a.txt", FileProbe::Missing)), ErrorKind::NotFound);
    assert_eq!(kind(BufferedFile::try_from("/", FileProbe::Missing)), ErrorKind::NotFound);
    assert_eq!(kind(BufferedFile::try_from("/", FileProbe::Directory)), ErrorKind::NotFound);
    assert_eq!(kind(BufferedFile::try_from("a", FileProbe::Unopenable)), ErrorKind::NotFound);
    assert_eq!(kind(BufferedFile::try_from("a", FileProbe::Unreadable)), ErrorKind::IO);
    assert_eq!(kind(BufferedFile::try_from("..", FileProbe::Unopenable)), ErrorKind::Invalid);
    assert_eq!(kind(BufferedFile::try_from("..", FileProbe::Unreadable)), ErrorKind::Invalid);
    assert_eq!(kind(BufferedFile::try_from("", FileProbe::Content(vec![]))), ErrorKind::Invalid);
}

#[test]
fn head_is_written_line_by_line() {
    let mut headers = Headers::new();
    headers.insert("A".to_string(), "1".to_string());
    headers.insert("B".to_string(), "".to_string());
    let head: String = write_head("HTTP/1.1", HttpStatus::NotFound, &headers).iter().collect();
    assert_eq!(head, "HTTP/1.1 404 NOT FOUND\r\nA: 1\r\nB: \r\n\r\n");
}

#[test]
fn error_kinds_and_messages() {
    let e = AppError::invalid("bad");
    assert_eq!(e.get_kind(), ErrorKind::Invalid);
    assert_eq!(e.message(), "bad");
    assert_eq!(AppError::IO("x".to_string()).get_kind(), ErrorKind::IO);
    assert_eq!(AppError::NotFound("x".to_string()).get_kind(), ErrorKind::NotFound);
    assert_eq!(AppError::NotPermitted("x".to_string()).get_kind(), ErrorKind::NotPermitted);
    assert_eq!(AppError::Unknown("x".to_string()).get_kind(), ErrorKind::Unknown);
    assert_eq!(AppError::Unknown("why".to_string()).message(), "why");
}

#[test]
fn header_sets_keep_each_name_once() {
    let mut h = Headers::new();
    assert_eq!(h.len(), 0);
    assert!(h.get("A").is_none());
    h.insert("A".to_string(), "1".to_string());
    h.insert("B".to_string(), "2".to_string());
    h.insert("A".to_string(), "3".to_string());
    assert_eq!(h.len(), 2);
    assert_eq!(h.get("A").unwrap(), "3");
    assert_eq!(h.get("B").unwrap(), "2");
    assert!(h.get("a").is_none());
    assert_eq!((h.name_at(0).as_str(), h.value_at(0).as_str()), ("A", "3"));
    assert_eq!((h.name_at(1).as_str(), h.value_at(1).as_str()), ("B", "2"));
}

#[test]
fn response_as_text() {
    let r = Response::builder().status(HttpStatus::Forbidden).header("X-A", "1").build();
    assert_eq!(r.to_text(), "HTTP/1.1 403 FORBIDDEN\r\nX-A: 1\r\n\r\n");
}

#[test]
fn file_as_text() {
    let f = BufferedFile { name: "a.txt".to_string(), content: "h\u{e9}".as_bytes().to_vec() };
    assert_eq!(f.to_text(), "Filename: a.txt\nFile content: h\u{e9}");
    let f = BufferedFile { name: "a.png".to_string(), content: vec![0xff, 0xd8] };
    assert_eq!(f.to_text(), "Filename: a.png\nFile content: File is not text based");
}

#[test]
fn header_lines_are_appended() {
    let mut h = Headers::new();
    h.insert("A".to_string(), "1".to_string());
    h.insert("B".to_string(), "2".to_string());
    let mut out: Vec<char> = "x".chars().collect();
    h.write_lines(&mut out);
    assert_eq!(out.iter().collect::<String>(), "xA: 1\r\nB: 2\r\n");
}
