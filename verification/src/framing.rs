//! The framing of a response: where the head ends on the wire, that the
//! body of a file response is found again behind it, and which header
//! fields the server sets over those of the caller.

use vstd::prelude::*;
use vstd::utf8::{
    encode_scalar, encode_utf8, has_width_1_encoding, has_width_2_encoding,
    has_width_3_encoding, last_continuation_byte, leading_byte_width_1, leading_byte_width_2,
    leading_byte_width_3, leading_byte_width_4, second_last_continuation_byte,
    third_last_continuation_byte,
};

use crate::headers::{
    distinct_names, field_line, field_lines, lemma_position_of, lemma_with_field, position_of,
    value_of, with_field,
};
use crate::common::{ErrorKind, FileProbe};
use crate::paths::{
    extension, file_name, lemma_extension_of_name, lemma_plain_name_is_file_name,
};
use crate::response::{
    body_file, head_text, media_type, sent_fields, status_line, wire, HttpStatus, ResponseBody,
};
use crate::text::{decimal, digit, first_match, lemma_first_match_is, occurs_at};

verus! {

/// The bytes of an empty line after a line: CR LF CR LF.
pub open spec fn blank_bytes() -> Seq<u8> {
    seq![13u8, 10u8, 13u8, 10u8]
}

/// The body of a message on the wire: what follows the first empty line.
pub open spec fn wire_body(wire: Seq<u8>) -> Option<Seq<u8>> {
    match first_match(wire, blank_bytes()) {
        Some(i) => Some(wire.skip(i + 4)),
        None => None,
    }
}

/// Whether a text holds no line feed, and so can stand inside a line.
pub open spec fn single_line(s: Seq<char>) -> bool {
    forall|i: int| 0 <= i < s.len() ==> #[trigger] s[i] != '\n'
}

/// Whether the names and the values of all fields hold no line feed.
pub open spec fn all_single_line(fields: Seq<(Seq<char>, Seq<char>)>) -> bool {
    forall|i: int|
        0 <= i < fields.len() ==> single_line((#[trigger] fields[i]).0) && single_line(
            fields[i].1,
        )
}

/// Whether bytes hold no line feed.
pub open spec fn feed_free(bytes: Seq<u8>) -> bool {
    forall|i: int| 0 <= i < bytes.len() ==> #[trigger] bytes[i] != 10
}

/// Whether bytes are made of lines that are not empty: no two line feeds
/// stand two apart, and unless there are no bytes they end in CR LF and
/// do not have a line feed as their second byte.
pub open spec fn lined(t: Seq<u8>) -> bool {
    &&& forall|i: int| 0 <= i && i + 2 < t.len() && #[trigger] t[i] == 10 ==> t[i + 2] != 10
    &&& t.len() > 0 ==> t.len() >= 3 && t[1] != 10 && t[t.len() - 2] == 13 && t.last() == 10
}

/// The bytes of a character other than the line feed hold no line feed;
/// the line feed and the carriage return are one byte each.
pub proof fn lemma_bytes_of_char(c: char)
    ensures
        encode_scalar(c as u32).len() >= 1,
        c != '\n' ==> feed_free(encode_scalar(c as u32)),
        c == '\n' ==> encode_scalar(c as u32) == seq![10u8],
        c == '\r' ==> encode_scalar(c as u32) == seq![13u8],
{
    let s = c as u32;
    if has_width_1_encoding(s) {
        assert(leading_byte_width_1(s) == s) by (bit_vector)
            requires
                has_width_1_encoding(s),
        ;
        assert(encode_scalar(s) =~= seq![leading_byte_width_1(s)]);
    } else if has_width_2_encoding(s) {
        assert(leading_byte_width_2(s) >= 0x80 && last_continuation_byte(s) >= 0x80)
            by (bit_vector);
    } else if has_width_3_encoding(s) {
        assert(leading_byte_width_3(s) >= 0x80 && second_last_continuation_byte(s) >= 0x80
            && last_continuation_byte(s) >= 0x80) by (bit_vector);
    } else {
        assert(leading_byte_width_4(s) >= 0x80 && third_last_continuation_byte(s) >= 0x80
            && second_last_continuation_byte(s) >= 0x80 && last_continuation_byte(s) >= 0x80)
            by (bit_vector);
    }
}

/// The bytes of two texts, one after the other, are the bytes of the one
/// after the bytes of the other.
pub proof fn lemma_bytes_of_concat(a: Seq<char>, b: Seq<char>)
    ensures
        encode_utf8(a + b) == encode_utf8(a) + encode_utf8(b),
    decreases a.len(),
{
    if a.len() == 0 {
        assert(a + b =~= b);
        assert(encode_utf8(a) + encode_utf8(b) =~= encode_utf8(b));
    } else {
        let t = a + b;
        assert(t[0] == a[0]);
        assert(t.drop_first() =~= a.drop_first() + b);
        lemma_bytes_of_concat(a.drop_first(), b);
        assert(encode_utf8(t) =~= encode_utf8(a) + encode_utf8(b));
    }
}

/// The bytes of a text without line feed hold no line feed, and there is
/// a byte at least for each character.
pub proof fn lemma_bytes_of_single_line(s: Seq<char>)
    requires
        single_line(s),
    ensures
        feed_free(encode_utf8(s)),
        encode_utf8(s).len() >= s.len(),
    decreases s.len(),
{
    if s.len() > 0 {
        let rest = s.drop_first();
        assert forall|i: int| 0 <= i < rest.len() implies #[trigger] rest[i] != '\n' by {
            assert(rest[i] == s[i + 1]);
        }
        lemma_bytes_of_single_line(rest);
        assert(s[0] != '\n');
        lemma_bytes_of_char(s[0]);
        let first = encode_scalar(s[0] as u32);
        let bytes = encode_utf8(s);
        assert forall|i: int| 0 <= i < bytes.len() implies #[trigger] bytes[i] != 10 by {
            if i < first.len() {
                assert(bytes[i] == first[i]);
            } else {
                assert(bytes[i] == encode_utf8(rest)[i - first.len()]);
            }
        }
    }
}

/// The bytes of the end of a line are CR and LF.
pub proof fn lemma_bytes_of_line_end()
    ensures
        encode_utf8(seq!['\r', '\n']) == seq![13u8, 10u8],
{
    let end = seq!['\r', '\n'];
    lemma_bytes_of_char('\r');
    lemma_bytes_of_char('\n');
    let tail = end.drop_first();
    assert(end[0] == '\r' && tail.len() == 1 && tail[0] == '\n');
    assert(tail.drop_first().len() == 0);
    assert(encode_utf8(tail.drop_first()) =~= Seq::<u8>::empty());
    assert(encode_utf8(tail) =~= seq![10u8]);
    assert(encode_utf8(end) =~= seq![13u8, 10u8]);
}

/// A text without line feed that is not empty, ended by CR LF, is a line
/// on the wire.
pub proof fn lemma_line_is_lined(content: Seq<char>)
    requires
        single_line(content),
        content.len() >= 1,
    ensures
        lined(encode_utf8(content + seq!['\r', '\n'])),
        encode_utf8(content + seq!['\r', '\n']).len() >= 3,
{
    lemma_bytes_of_concat(content, seq!['\r', '\n']);
    lemma_bytes_of_line_end();
    lemma_bytes_of_single_line(content);
    let body = encode_utf8(content);
    let t = encode_utf8(content + seq!['\r', '\n']);
    let n = body.len() as int;
    assert(t =~= body + seq![13u8, 10u8]);
    assert(t[n] == 13 && t[n + 1] == 10);
    assert forall|i: int| 0 <= i && i + 2 < t.len() && #[trigger] t[i] == 10 implies t[i + 2]
        != 10 by {
        assert(t[i] == body[i]);
    }
    if n > 1 {
        assert(t[1] == body[1]);
    }
}

/// Lines after lines are lines.
pub proof fn lemma_lined_concat(a: Seq<u8>, b: Seq<u8>)
    requires
        lined(a),
        lined(b),
    ensures
        lined(a + b),
{
    let t = a + b;
    let n = a.len() as int;
    assert forall|i: int| 0 <= i && i + 2 < t.len() && #[trigger] t[i] == 10 implies t[i + 2]
        != 10 by {
        if i + 2 < n {
            assert(t[i] == a[i] && t[i + 2] == a[i + 2]);
        } else if i >= n {
            assert(t[i] == b[i - n] && t[i + 2] == b[i - n + 2]);
        } else if i == n - 1 {
            assert(t[i + 2] == b[1]);
        } else {
            assert(t[i] == a[n - 2]);
        }
    }
    if a.len() > 0 && b.len() > 0 {
        assert(t[1] == a[1]);
        assert(t[t.len() - 2] == b[b.len() - 2]);
        assert(t.last() == b.last());
    } else if a.len() > 0 {
        assert(t =~= a);
    } else {
        assert(t =~= b);
    }
}

/// Texts without line feed, one after the other, hold no line feed.
pub proof fn lemma_single_line_concat(a: Seq<char>, b: Seq<char>)
    requires
        single_line(a),
        single_line(b),
    ensures
        single_line(a + b),
{
    let t = a + b;
    assert forall|i: int| 0 <= i < t.len() implies #[trigger] t[i] != '\n' by {
        if i < a.len() {
            assert(t[i] == a[i]);
        } else {
            assert(t[i] == b[i - a.len()]);
        }
    }
}

/// A decimal numeral holds no line feed and is not empty.
pub proof fn lemma_decimal_is_single_line(n: nat)
    ensures
        single_line(decimal(n)),
        decimal(n).len() >= 1,
    decreases n,
{
    if n >= 10 {
        lemma_decimal_is_single_line(n / 10);
        let front = decimal(n / 10);
        assert(digit(n % 10) == ((48 + n % 10) as u8) as char);
        assert forall|i: int| 0 <= i < decimal(n).len() implies #[trigger] decimal(n)[i]
            != '\n' by {
            if i < front.len() {
                assert(decimal(n)[i] == front[i]);
            }
        }
    } else {
        assert(decimal(n)[0] == digit(n));
    }
}

/// The lines of fields without line feed are lines on the wire.
pub proof fn lemma_field_lines_are_lined(fields: Seq<(Seq<char>, Seq<char>)>)
    requires
        all_single_line(fields),
    ensures
        lined(encode_utf8(field_lines(fields))),
    decreases fields.len(),
{
    if fields.len() > 0 {
        let front = fields.drop_last();
        assert forall|i: int| 0 <= i < front.len() implies single_line((#[trigger] front[i]).0)
            && single_line(front[i].1) by {
            assert(front[i] == fields[i]);
        }
        lemma_field_lines_are_lined(front);
        let f = fields.last();
        assert(single_line(f.0) && single_line(f.1));
        let sep = seq![':', ' '];
        assert(single_line(sep)) by {
            assert(sep[0] == ':' && sep[1] == ' ');
        }
        lemma_single_line_concat(f.0, sep);
        lemma_single_line_concat(f.0 + sep, f.1);
        lemma_line_is_lined(f.0 + sep + f.1);
        lemma_bytes_of_concat(field_lines(front), field_line(f));
        lemma_lined_concat(encode_utf8(field_lines(front)), encode_utf8(field_line(f)));
    } else {
        assert(encode_utf8(field_lines(fields)) =~= Seq::<u8>::empty());
    }
}

/// The reason phrase of each status holds no line feed.
pub proof fn lemma_reason_is_single_line(status: HttpStatus)
    ensures
        single_line(status.reason()),
{
    reveal_strlit("OK");
    reveal_strlit("SEE OTHER");
    reveal_strlit("FORBIDDEN");
    reveal_strlit("NOT FOUND");
    reveal_strlit("SERVER ERROR");
    let r = status.reason();
    assert forall|i: int| 0 <= i < r.len() implies #[trigger] r[i] != '\n' by {}
}

/// The status line of a version without line feed is a line on the wire.
pub proof fn lemma_status_line_is_lined(version: Seq<char>, status: HttpStatus)
    requires
        single_line(version),
    ensures
        lined(encode_utf8(status_line(version, status))),
        encode_utf8(status_line(version, status)).len() > 0,
{
    let space = seq![' '];
    assert(single_line(space)) by {
        assert(space[0] == ' ');
    }
    lemma_decimal_is_single_line(status.code());
    lemma_reason_is_single_line(status);
    lemma_single_line_concat(version, space);
    lemma_single_line_concat(version + space, decimal(status.code()));
    lemma_single_line_concat(version + space + decimal(status.code()), space);
    lemma_single_line_concat(version + space + decimal(status.code()) + space, status.reason());
    lemma_line_is_lined(version + space + decimal(status.code()) + space + status.reason());
}

/// Giving a field without line feed to such fields leaves them so.
pub proof fn lemma_with_field_is_single_line(
    fields: Seq<(Seq<char>, Seq<char>)>,
    name: Seq<char>,
    value: Seq<char>,
)
    requires
        all_single_line(fields),
        single_line(name),
        single_line(value),
    ensures
        all_single_line(with_field(fields, name, value)),
{
    let after = with_field(fields, name, value);
    lemma_position_of(fields, name);
    assert forall|i: int| 0 <= i < after.len() implies single_line((#[trigger] after[i]).0)
        && single_line(after[i].1) by {
        match position_of(fields, name) {
            Some(k) => {
                if i != k {
                    assert(after[i] == fields[i]);
                }
            },
            None => {
                if i < fields.len() {
                    assert(after[i] == fields[i]);
                }
            },
        }
    }
}

/// No media type of the table holds a line feed.
pub proof fn lemma_media_type_is_single_line(file_path: Seq<char>)
    ensures
        single_line(media_type(file_path)),
{
    reveal_strlit("text/html; charset=UTF-8");
    reveal_strlit("text/css");
    reveal_strlit("application/javascript");
    reveal_strlit("image/png");
    reveal_strlit("image/jpeg");
    reveal_strlit("image/gif");
    reveal_strlit("application/pdf");
    reveal_strlit("application/json");
    reveal_strlit("text/plain");
    reveal_strlit("application/octet-stream");
    let m = media_type(file_path);
    assert forall|i: int| 0 <= i < m.len() implies #[trigger] m[i] != '\n' by {}
}

/// The fields that are sent with a file hold no line feed, where neither
/// the name of the file nor the fields of the response hold one.
pub proof fn lemma_sent_fields_are_single_line(
    fields: Seq<(Seq<char>, Seq<char>)>,
    name: Seq<char>,
    content: Seq<u8>,
)
    requires
        all_single_line(fields),
        single_line(name),
    ensures
        all_single_line(sent_fields(fields, Some((name, content)))),
{
    reveal_strlit("Content-Length");
    reveal_strlit("Content-Type");
    reveal_strlit("Content-Disposition");
    reveal_strlit("inline; filename=\"");
    let length = "Content-Length"@;
    let kind = "Content-Type"@;
    let disposition = "Content-Disposition"@;
    let inline = "inline; filename=\""@;
    assert(single_line(length)) by {
        assert forall|i: int| 0 <= i < length.len() implies #[trigger] length[i] != '\n' by {}
    }
    assert(single_line(kind)) by {
        assert forall|i: int| 0 <= i < kind.len() implies #[trigger] kind[i] != '\n' by {}
    }
    assert(single_line(disposition)) by {
        assert forall|i: int| 0 <= i < disposition.len() implies #[trigger] disposition[i]
            != '\n' by {}
    }
    assert(single_line(inline)) by {
        assert forall|i: int| 0 <= i < inline.len() implies #[trigger] inline[i] != '\n' by {}
    }
    let quote = seq!['"'];
    assert(single_line(quote)) by {
        assert(quote[0] == '"');
    }
    lemma_decimal_is_single_line(content.len());
    lemma_media_type_is_single_line(name);
    lemma_single_line_concat(inline, name);
    lemma_single_line_concat(inline + name, quote);
    let sized = with_field(fields, length, decimal(content.len()));
    lemma_with_field_is_single_line(fields, length, decimal(content.len()));
    let typed = with_field(sized, kind, media_type(name));
    lemma_with_field_is_single_line(sized, kind, media_type(name));
    lemma_with_field_is_single_line(typed, disposition, inline + name + quote);
}

/// Behind lines that are not empty, the first empty line on the wire is
/// the one that ends the head.
pub proof fn lemma_first_blank_line(t: Seq<u8>, body: Seq<u8>)
    requires
        lined(t),
        t.len() > 0,
    ensures
        first_match(t + seq![13u8, 10u8] + body, blank_bytes()) == Some(t.len() - 2),
{
    let n = t.len() as int;
    let w = t + seq![13u8, 10u8] + body;
    let blank = blank_bytes();
    assert(w[n - 2] == t[n - 2] && w[n - 1] == t[n - 1] && w[n] == 13 && w[n + 1] == 10);
    assert(w.subrange(n - 2, n + 2) =~= blank);
    assert forall|j: int| 0 <= j < n - 2 implies !occurs_at(w, blank, j) by {
        if occurs_at(w, blank, j) {
            let found = w.subrange(j, j + 4);
            assert(found[1] == w[j + 1] && found[3] == w[j + 3]);
            assert(blank[1] == 10 && blank[3] == 10);
            assert(w[j + 1] == t[j + 1]);
            if j + 3 < n {
                assert(w[j + 3] == t[j + 3]);
            }
        }
    }
    lemma_first_match_is(w, blank, 0, n - 2);
}

/// What follows the first empty line of a file response is the content of
/// the file, byte for byte, where neither the version, nor a field of the
/// response, nor the name of the file holds a line feed.
pub proof fn lemma_body_round_trip(
    version: Seq<char>,
    status: HttpStatus,
    fields: Seq<(Seq<char>, Seq<char>)>,
    name: Seq<char>,
    content: Seq<u8>,
)
    requires
        single_line(version),
        all_single_line(fields),
        single_line(name),
    ensures
        wire_body(wire(version, status, fields, Some((name, content)))) == Some(content),
{
    let sent = sent_fields(fields, Some((name, content)));
    lemma_sent_fields_are_single_line(fields, name, content);
    lemma_field_lines_are_lined(sent);
    lemma_status_line_is_lined(version, status);
    let lines = status_line(version, status) + field_lines(sent);
    lemma_bytes_of_concat(status_line(version, status), field_lines(sent));
    lemma_lined_concat(
        encode_utf8(status_line(version, status)),
        encode_utf8(field_lines(sent)),
    );
    let t = encode_utf8(lines);
    lemma_first_blank_line(t, content);
    let head = head_text(version, status, sent);
    assert(head =~= lines + seq!['\r', '\n']);
    lemma_bytes_of_concat(lines, seq!['\r', '\n']);
    lemma_bytes_of_line_end();
    let w = wire(version, status, fields, Some((name, content)));
    assert(w == t + seq![13u8, 10u8] + content);
    assert(w.skip(t.len() - 2 + 4) =~= content);
}

/// The response that serves the file `a.txt` gives the content of the
/// file back behind its head, whatever the content.
pub proof fn lemma_file_response_round_trip(content: Seq<u8>)
    ensures
        wire_body(
            wire("HTTP/1.1"@, HttpStatus::Success, Seq::empty(), Some(("a.txt"@, content))),
        ) == Some(content),
{
    reveal_strlit("HTTP/1.1");
    reveal_strlit("a.txt");
    let version = "HTTP/1.1"@;
    let name = "a.txt"@;
    assert(single_line(version)) by {
        assert forall|i: int| 0 <= i < version.len() implies #[trigger] version[i] != '\n' by {}
    }
    assert(single_line(name)) by {
        assert forall|i: int| 0 <= i < name.len() implies #[trigger] name[i] != '\n' by {}
    }
    lemma_body_round_trip(version, HttpStatus::Success, Seq::empty(), name, content);
}

/// The fields that the server computes override those of the caller: in
/// what is sent with a file, the length is that of the content, the type
/// is the media type of the name, and for all but HTML the disposition
/// names the file; every field of another name keeps its value.
pub proof fn lemma_computed_fields_win(
    fields: Seq<(Seq<char>, Seq<char>)>,
    name: Seq<char>,
    content: Seq<u8>,
    other: Seq<char>,
)
    requires
        distinct_names(fields),
    ensures
        distinct_names(sent_fields(fields, Some((name, content)))),
        value_of(sent_fields(fields, Some((name, content))), "Content-Length"@) == Some(
            decimal(content.len()),
        ),
        value_of(sent_fields(fields, Some((name, content))), "Content-Type"@) == Some(
            media_type(name),
        ),
        !occurs_at(media_type(name), "text/html"@, 0) ==> value_of(
            sent_fields(fields, Some((name, content))),
            "Content-Disposition"@,
        ) == Some("inline; filename=\""@ + name + seq!['"']),
        other != "Content-Length"@ && other != "Content-Type"@ && other != "Content-Disposition"@
            ==> value_of(sent_fields(fields, Some((name, content))), other) == value_of(
            fields,
            other,
        ),
{
    reveal_strlit("Content-Length");
    reveal_strlit("Content-Type");
    reveal_strlit("Content-Disposition");
    let length = "Content-Length"@;
    let kind = "Content-Type"@;
    let disposition = "Content-Disposition"@;
    assert(length.len() != kind.len() && length.len() != disposition.len() && kind.len()
        != disposition.len());
    let sized = with_field(fields, length, decimal(content.len()));
    let typed = with_field(sized, kind, media_type(name));
    lemma_with_field(fields, length, decimal(content.len()), other);
    lemma_with_field(fields, length, decimal(content.len()), kind);
    lemma_with_field(sized, kind, media_type(name), length);
    lemma_with_field(sized, kind, media_type(name), other);
    lemma_with_field(typed, disposition, "inline; filename=\""@ + name + seq!['"'], length);
    lemma_with_field(typed, disposition, "inline; filename=\""@ + name + seq!['"'], kind);
    lemma_with_field(typed, disposition, "inline; filename=\""@ + name + seq!['"'], other);
}

/// Without a file, the length that is sent is 0, whatever the caller set,
/// and every field of another name keeps its value.
pub proof fn lemma_empty_body_has_length_zero(
    fields: Seq<(Seq<char>, Seq<char>)>,
    other: Seq<char>,
)
    requires
        distinct_names(fields),
    ensures
        distinct_names(sent_fields(fields, None)),
        value_of(sent_fields(fields, None), "Content-Length"@) == Some(decimal(0)),
        other != "Content-Length"@ ==> value_of(sent_fields(fields, None), other) == value_of(
            fields,
            other,
        ),
{
    lemma_with_field(fields, "Content-Length"@, decimal(0), other);
}

/// A file that was read is sent whole and found again: where a response
/// as the server makes it for a file names a path whose base name holds
/// no line feed, and the file system gave the content of that file, the
/// body resolves to that name and content, the length that is sent is the
/// length of the content, and what follows the first empty line on the
/// wire is the content, byte for byte.
pub proof fn lemma_served_file_round_trip(
    body: ResponseBody,
    probe: FileProbe,
    name: Seq<char>,
    content: Seq<u8>,
)
    requires
        body matches ResponseBody::File(path) && file_name(path@) == Some(name),
        probe matches FileProbe::Content(bytes) && bytes@ == content,
        single_line(name),
    ensures
        body_file(body, probe) == Ok::<_, ErrorKind>(Some((name, content))),
        value_of(sent_fields(Seq::empty(), Some((name, content))), "Content-Length"@) == Some(
            decimal(content.len()),
        ),
        wire_body(
            wire("HTTP/1.1"@, HttpStatus::Success, Seq::empty(), Some((name, content))),
        ) == Some(content),
{
    reveal_strlit("HTTP/1.1");
    let version = "HTTP/1.1"@;
    assert(single_line(version)) by {
        assert forall|i: int| 0 <= i < version.len() implies #[trigger] version[i] != '\n' by {}
    }
    lemma_body_round_trip(version, HttpStatus::Success, Seq::empty(), name, content);
    lemma_computed_fields_win(Seq::empty(), name, content, "Content-Length"@);
}

/// The numerals of the status codes and of zero.
pub proof fn lemma_small_numerals()
    ensures
        decimal(0) == seq!['0'],
        decimal(200) == seq!['2', '0', '0'],
        decimal(303) == seq!['3', '0', '3'],
        decimal(403) == seq!['4', '0', '3'],
        decimal(404) == seq!['4', '0', '4'],
        decimal(500) == seq!['5', '0', '0'],
{
    reveal_with_fuel(decimal, 4);
    assert(digit(0) == '0' && digit(2) == '2' && digit(3) == '3' && digit(4) == '4' && digit(5)
        == '5');
    assert(decimal(0) =~= seq!['0']);
    assert(decimal(200) =~= seq!['2', '0', '0']);
    assert(decimal(303) =~= seq!['3', '0', '3']);
    assert(decimal(403) =~= seq!['4', '0', '3']);
    assert(decimal(404) =~= seq!['4', '0', '4']);
    assert(decimal(500) =~= seq!['5', '0', '0']);
}

/// The redirect that answers an upload, on the wire: the status line of
/// 303, the location of the index page, a length of 0, and no body.
pub proof fn lemma_redirect_on_the_wire()
    ensures
        wire("HTTP/1.1"@, HttpStatus::SeeOther, seq![("Location"@, "/"@)], None) == encode_utf8(
            "HTTP/1.1 303 SEE OTHER\r\nLocation: /\r\nContent-Length: 0\r\n\r\n"@,
        ),
{
    reveal_strlit("HTTP/1.1");
    reveal_strlit("SEE OTHER");
    reveal_strlit("Location");
    reveal_strlit("/");
    reveal_strlit("Content-Length");
    reveal_strlit("HTTP/1.1 303 SEE OTHER\r\nLocation: /\r\nContent-Length: 0\r\n\r\n");
    lemma_small_numerals();
    let fields = seq![("Location"@, "/"@)];
    lemma_position_of(fields, "Content-Length"@);
    assert(fields[0].0.len() != "Content-Length"@.len());
    let sent = sent_fields(fields, None);
    assert(sent =~= seq![("Location"@, "/"@), ("Content-Length"@, seq!['0'])]);
    let first = sent.drop_last();
    assert(first =~= seq![("Location"@, "/"@)]);
    assert(first.drop_last() =~= Seq::<(Seq<char>, Seq<char>)>::empty());
    assert(field_lines(first.drop_last()) =~= Seq::<char>::empty());
    assert(field_lines(first) =~= field_line(("Location"@, "/"@)));
    assert(field_lines(sent) =~= field_line(("Location"@, "/"@)) + field_line(
        ("Content-Length"@, seq!['0']),
    ));
    let head = head_text("HTTP/1.1"@, HttpStatus::SeeOther, sent);
    let text = "HTTP/1.1 303 SEE OTHER\r\nLocation: /\r\nContent-Length: 0\r\n\r\n"@;
    assert(head =~= text);
    assert(encode_utf8(head) + Seq::<u8>::empty() =~= encode_utf8(head));
}

/// The file `a.txt` is a text file: its base name is itself, and its
/// media type is `text/plain`.
pub proof fn lemma_a_txt_is_plain_text()
    ensures
        file_name("a.txt"@) == Some("a.txt"@),
        extension("a.txt"@) == Some("txt"@),
        media_type("a.txt"@) == "text/plain"@,
        !occurs_at(media_type("a.txt"@), "text/html"@, 0),
{
    reveal_strlit("a.txt");
    reveal_strlit("txt");
    reveal_strlit("html");
    reveal_strlit("css");
    reveal_strlit("js");
    reveal_strlit("png");
    reveal_strlit("jpg");
    reveal_strlit("jpeg");
    reveal_strlit("gif");
    reveal_strlit("pdf");
    reveal_strlit("json");
    reveal_strlit("text/plain");
    reveal_strlit("text/html");
    let name = "a.txt"@;
    let ending = "txt"@;
    assert(name =~= seq!['a'] + seq!['.'] + ending);
    assert(name.len() == 5 && name[0] == 'a');
    lemma_plain_name_is_file_name(name);
    lemma_extension_of_name(seq!['a'], ending);
    assert(ending[0] != "css"@[0] && ending[0] != "png"@[0] && ending[0] != "jpg"@[0]
        && ending[0] != "gif"@[0] && ending[0] != "pdf"@[0]);
    assert(ending.len() != "html"@.len() && ending.len() != "js"@.len() && ending.len()
        != "jpeg"@.len() && ending.len() != "json"@.len());
    if occurs_at("text/plain"@, "text/html"@, 0) {
        assert("text/plain"@.subrange(0, 9)[5] == "text/plain"@[5]);
        assert("text/html"@[5] == 'h');
    }
}

/// The response that serves the file `a.txt`, on the wire: the status
/// line, the length of the content, the media type and the disposition
/// that names the file, an empty line, and the content, whatever it is.
pub proof fn lemma_a_txt_on_the_wire(content: Seq<u8>)
    ensures
        wire("HTTP/1.1"@, HttpStatus::Success, Seq::empty(), Some(("a.txt"@, content)))
            == encode_utf8(
            "HTTP/1.1 200 OK\r\nContent-Length: "@ + decimal(content.len())
                + "\r\nContent-Type: text/plain\r\nContent-Disposition: inline; filename=\"a.txt\"\r\n\r\n"@,
        ) + content,
{
    lemma_a_txt_is_plain_text();
    lemma_small_numerals();
    reveal_strlit("HTTP/1.1");
    reveal_strlit("OK");
    reveal_strlit("a.txt");
    reveal_strlit("text/plain");
    reveal_strlit("Content-Length");
    reveal_strlit("Content-Type");
    reveal_strlit("Content-Disposition");
    reveal_strlit("inline; filename=\"");
    reveal_strlit("HTTP/1.1 200 OK\r\nContent-Length: ");
    reveal_strlit(
        "\r\nContent-Type: text/plain\r\nContent-Disposition: inline; filename=\"a.txt\"\r\n\r\n",
    );
    let name = "a.txt"@;
    let size = decimal(content.len());
    let length = ("Content-Length"@, size);
    let kind = ("Content-Type"@, "text/plain"@);
    let disposition = ("Content-Disposition"@, "inline; filename=\""@ + name + seq!['"']);
    let none = Seq::<(Seq<char>, Seq<char>)>::empty();
    lemma_position_of(none, "Content-Length"@);
    let sized = with_field(none, "Content-Length"@, size);
    assert(sized =~= seq![length]);
    lemma_position_of(sized, "Content-Type"@);
    assert(sized[0].0.len() != "Content-Type"@.len());
    let typed = with_field(sized, "Content-Type"@, "text/plain"@);
    assert(typed =~= seq![length, kind]);
    lemma_position_of(typed, "Content-Disposition"@);
    assert(typed[0].0.len() != "Content-Disposition"@.len());
    assert(typed[1].0.len() != "Content-Disposition"@.len());
    let sent = sent_fields(none, Some((name, content)));
    assert(sent =~= seq![length, kind, disposition]);
    assert(sent.drop_last() =~= typed);
    assert(typed.drop_last() =~= sized);
    assert(sized.drop_last() =~= none);
    assert(field_lines(none) =~= Seq::<char>::empty());
    assert(field_lines(sized) =~= field_line(length));
    assert(field_lines(typed) =~= field_line(length) + field_line(kind));
    assert(field_lines(sent) =~= field_line(length) + field_line(kind) + field_line(disposition));
    let head = head_text("HTTP/1.1"@, HttpStatus::Success, sent);
    let text = "HTTP/1.1 200 OK\r\nContent-Length: "@ + size
        + "\r\nContent-Type: text/plain\r\nContent-Disposition: inline; filename=\"a.txt\"\r\n\r\n"@;
    assert(head =~= text);
}

} // verus!
