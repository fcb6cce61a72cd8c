use fileserve::common::{AppError, ErrorKind};
use fileserve::multipart::{
    file_from_form, file_name_from, BodyExtractor, MultiPartFormExtractor, MAX_FILE_SIZE,
};

fn chars(s: &str) -> Vec<char> {
    s.chars().collect()
}

fn form(boundary: &str, name: &str, data: &str) -> Vec<u8> {
    format!(
        "--{boundary}\r\nContent-Disposition: form-data; name=\"file\"; filename=\"{name}\"\r\nContent-Type: text/plain\r\n\r\n{data}\r\n--{boundary}--\r\n"
    )
    .into_bytes()
}

fn kind_of(r: Result<fileserve::common::BufferedFile, AppError>) -> ErrorKind {
    match r {
        Ok(_) => panic!("expected a failure"),
        Err(e) => e.get_kind(),
    }
}

#[test]
fn limit_is_fifty_mebibytes() {
    assert_eq!(MAX_FILE_SIZE, 50 * 1024 * 1024);
    assert_eq!(MultiPartFormExtractor::MAX_FILE_SIZE, 50 * 1024 * 1024);
}

#[test]
fn extracts_name_and_content() {
    let body = form("XyZ", "note.txt", "hi");
    let n = body.len();
    let file = MultiPartFormExtractor::extract(
        &body,
        "multipart/form-data; boundary=XyZ".to_string(),
        n,
    )
    .unwrap();
    assert_eq!(file.name, "note.txt");
    assert_eq!(file.content, b"hi".to_vec());
}

#[test]
fn declared_length_is_authoritative() {
    let mut stream = form("b", "a.txt", "content");
    let n = stream.len();
    stream.extend_from_slice(b"trailing bytes that are not part of the body");
    let file =
        MultiPartFormExtractor::extract(&stream, "multipart/form-data; boundary=b".to_string(), n)
            .unwrap();
    assert_eq!(file.name, "a.txt");
    assert_eq!(file.content, b"content".to_vec());
}

#[test]
fn data_keeps_inner_line_breaks() {
    let body = form("b", "a.txt", "one\ntwo\r\nthree");
    let n = body.len();
    let file =
        MultiPartFormExtractor::extract(&body, "multipart/form-data; boundary=b".to_string(), n)
            .unwrap();
    assert_eq!(file.content, b"one\ntwo\r\nthree".to_vec());
}

#[test]
fn body_over_the_limit_is_invalid_whatever_the_stream() {
    let r = MultiPartFormExtractor::extract(
        &[],
        "multipart/form-data; boundary=b".to_string(),
        MAX_FILE_SIZE + 1,
    );
    assert_eq!(kind_of(r), ErrorKind::Invalid);
    let body = form("b", "a.txt", "x");
    let r = MultiPartFormExtractor::extract(
        &body,
        "multipart/form-data; boundary=b".to_string(),
        usize::MAX,
    );
    assert_eq!(kind_of(r), ErrorKind::Invalid);
}

#[test]
fn body_at_the_limit_is_read() {
    let r = MultiPartFormExtractor::extract(
        &[],
        "multipart/form-data; boundary=b".to_string(),
        MAX_FILE_SIZE,
    );
    match r {
        Err(AppError::Invalid(m)) => assert_eq!(m, "Failed to read form data"),
        _ => panic!("expected the read to fail"),
    }
}

#[test]
fn missing_boundary_is_invalid() {
    let body = form("b", "a.txt", "x");
    let n = body.len();
    let r = MultiPartFormExtractor::extract(&body, "multipart/form-data".to_string(), n);
    assert_eq!(kind_of(r), ErrorKind::Invalid);
}

#[test]
fn short_stream_is_invalid() {
    let body = form("b", "a.txt", "x");
    let n = body.len();
    let r = MultiPartFormExtractor::extract(
        &body[..n - 1],
        "multipart/form-data; boundary=b".to_string(),
        n,
    );
    assert_eq!(kind_of(r), ErrorKind::Invalid);
}

#[test]
fn body_that_is_not_utf8_is_invalid() {
    let mut body = form("b", "a.txt", "x");
    body[40] = 0xFF;
    let n = body.len();
    let r =
        MultiPartFormExtractor::extract(&body, "multipart/form-data; boundary=b".to_string(), n);
    match r {
        Err(AppError::Invalid(m)) => assert_eq!(m, "Failed to parse form data"),
        _ => panic!("expected the decoding to fail"),
    }
}

#[test]
fn content_beyond_ascii_is_decoded_and_encoded_again() {
    let body = form("b", "caf\u{e9}.txt", "gr\u{fc}\u{df}e \u{1F600}");
    let n = body.len();
    let file =
        MultiPartFormExtractor::extract(&body, "multipart/form-data; boundary=b".to_string(), n)
            .unwrap();
    assert_eq!(file.name, "caf\u{e9}.txt");
    assert_eq!(file.content, "gr\u{fc}\u{df}e \u{1F600}".as_bytes().to_vec());
}

#[test]
fn wrong_boundary_is_invalid() {
    let body = form("b", "a.txt", "x");
    let n = body.len();
    let r = MultiPartFormExtractor::extract(
        &body,
        "multipart/form-data; boundary=other".to_string(),
        n,
    );
    match r {
        Err(AppError::Invalid(m)) => assert_eq!(m, "Form body not surrounded with boundary"),
        _ => panic!("expected a failure"),
    }
}

#[test]
fn missing_closing_boundary_is_invalid() {
    let body = b"--b\r\nContent-Disposition: form-data; filename=\"a.txt\"\r\nContent-Type: text/plain\r\n\r\nx\r\n".to_vec();
    let n = body.len();
    let r =
        MultiPartFormExtractor::extract(&body, "multipart/form-data; boundary=b".to_string(), n);
    assert_eq!(kind_of(r), ErrorKind::Invalid);
}

#[test]
fn boundary_is_trimmed() {
    let body = form("b", "a.txt", "x");
    let n = body.len();
    let file = MultiPartFormExtractor::extract(
        &body,
        "multipart/form-data; boundary=  b \r\n".to_string(),
        n,
    )
    .unwrap();
    assert_eq!(file.name, "a.txt");
}

#[test]
fn form_without_lines_is_invalid() {
    let text = chars("--b name; filename=\"a.txt\" --b--");
    match file_from_form(&text, &chars("b")) {
        Err(AppError::Invalid(m)) => assert_eq!(m, "Content type missing from form body"),
        _ => panic!("expected a failure"),
    }
    let text = chars("--b nothing here --b--");
    match file_from_form(&text, &chars("b")) {
        Err(AppError::Invalid(m)) => assert_eq!(m, "Invalid content disposition"),
        _ => panic!("expected a failure"),
    }
}

#[test]
fn form_without_data_is_invalid() {
    let text = chars("--b\nContent-Disposition: form-data; filename=\"a.txt\"\nContent-Type: text/plain--b--");
    match file_from_form(&text, &chars("b")) {
        Err(AppError::Invalid(m)) => assert_eq!(m, "file data missing from form body"),
        _ => panic!("expected a failure"),
    }
}

#[test]
fn disposition_without_semicolon_or_equals_is_invalid() {
    assert!(file_name_from(&chars("Content-Disposition: form-data")).is_none());
    assert!(file_name_from(&chars("Content-Disposition: form-data; filename")).is_none());
}

#[test]
fn file_name_is_what_follows_the_last_semicolon() {
    let name = file_name_from(&chars("form-data; name=\"file\"; filename=\"a b.txt\"\r")).unwrap();
    assert_eq!(name, chars("a b.txt"));
    let name = file_name_from(&chars("x; filename=  \"\"quoted.txt\"\"  ")).unwrap();
    assert_eq!(name, chars("quoted.txt"));
    let name = file_name_from(&chars("x; filename=a=b.txt")).unwrap();
    assert_eq!(name, chars("a=b.txt"));
}

#[test]
fn empty_data_counts_as_missing() {
    let text = chars("--b\nd; filename=\"a.txt\"\nContent-Type: text/plain\n\n--b--");
    match file_from_form(&text, &chars("b")) {
        Err(AppError::Invalid(m)) => assert_eq!(m, "file data missing from form body"),
        _ => panic!("expected a failure"),
    }
}

#[test]
fn data_is_trimmed() {
    let text = chars("--b\nd; filename=\"a.txt\"\nContent-Type: text/plain\n\n  x y \n\n--b--");
    let file = file_from_form(&text, &chars("b")).unwrap();
    assert_eq!(file.name, "a.txt");
    assert_eq!(file.content, b"x y".to_vec());
}
