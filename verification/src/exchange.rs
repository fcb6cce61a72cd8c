//! A whole upload, from the bytes that a client sends to the bytes that it
//! gets back: what a well-formed request with one file is read as, where
//! the file is written, and what is answered.

use vstd::prelude::*;
use vstd::utf8::{
    decode_utf8, encode_utf8, encode_utf8_decode_utf8, encode_utf8_valid_utf8, valid_utf8,
};

use crate::common::ErrorKind;
use crate::framing::{
    lemma_bytes_of_char, lemma_bytes_of_concat, lemma_bytes_of_line_end,
    lemma_bytes_of_single_line, lemma_redirect_on_the_wire, single_line,
};
use crate::handlers::{
    lemma_plain_upload_is_accepted, route_of, upload_outcome, valid_filename, Route,
};
use crate::headers::{field_line, lemma_position_is, lemma_position_of, value_of, with_field};
use crate::multipart::{
    boundary_of, disposition_file_name, form_file, form_inside, form_pieces, multipart_file,
    MAX_FILE_SIZE,
};
use crate::paths::is_plain_name;
use crate::request::{
    blank_line, declared_body, header_case, header_field, is_token,
    lemma_header_case_of_canonical, lemma_method_name_is_read, lemma_request_line_round_trip,
    line_ended, line_length, parsed_request, request_body, stream_fields, HttpMethod,
    RequestModel,
};
use crate::response::{wire, HttpStatus};
use crate::text::{
    all_digits, decimal, digit, digits_value, is_digit, is_whitespace, lemma_first_match_is,
    lemma_last_index_is, lemma_leading_run_is, lemma_occurs_single, lemma_trailing_run_is,
    occurs_at, split_at_first, split_at_last, stripped, trimmed, unsigned_number,
    without_leading, without_prefix, without_suffix, without_trailing, CharClass,
};

verus! {

/// A text with characters of a class before and after a core that
/// neither begins nor ends with one: taking the runs of the class off
/// both ends leaves the core.
pub proof fn lemma_stripped_of_padded(
    before: Seq<char>,
    core: Seq<char>,
    after: Seq<char>,
    class: CharClass,
)
    requires
        forall|i: int| 0 <= i < before.len() ==> class.holds(#[trigger] before[i]),
        forall|i: int| 0 <= i < after.len() ==> class.holds(#[trigger] after[i]),
        core.len() > 0,
        !class.holds(core.first()),
        !class.holds(core.last()),
    ensures
        stripped(before + core + after, class) == core,
{
    let s = before + core + after;
    let n = before.len() as int;
    assert forall|i: int| 0 <= i < n implies class.holds(#[trigger] s[i]) by {
        assert(s[i] == before[i]);
    }
    assert(s[n] == core[0]);
    lemma_leading_run_is(s, class, n);
    let rest = without_leading(s, class);
    assert(rest =~= core + after);
    let m = after.len() as int;
    assert forall|i: int| rest.len() - m <= i < rest.len() implies class.holds(
        #[trigger] rest[i],
    ) by {
        assert(rest[i] == after[i - core.len()]);
    }
    assert(rest[rest.len() - m - 1] == core[core.len() - 1]);
    lemma_trailing_run_is(rest, class, m);
    assert(without_trailing(rest, class) =~= core);
}

/// The disposition line of a form that carries the file called `name`.
pub open spec fn disposition_line(name: Seq<char>) -> Seq<char> {
    "Content-Disposition: form-data; name=\"file\"; filename=\""@ + name + seq!['"']
}

/// The text of a form that carries one file: the boundary line, the
/// disposition line, the type line, an empty line, the data, and the
/// closing boundary line.
pub open spec fn form_text(boundary: Seq<char>, name: Seq<char>, data: Seq<char>) -> Seq<char> {
    seq!['-', '-'] + boundary + seq!['\r', '\n'] + disposition_line(name) + seq!['\r', '\n']
        + "Content-Type: text/plain"@ + seq!['\r', '\n', '\r', '\n'] + data + seq![
        '\r',
        '\n',
        '-',
        '-',
    ] + boundary + seq!['-', '-', '\r', '\n']
}

/// Whether a text can be the boundary of a form: it is not empty and
/// holds no white space.
pub open spec fn is_boundary(boundary: Seq<char>) -> bool {
    boundary.len() > 0 && forall|i: int|
        0 <= i < boundary.len() ==> !is_whitespace(#[trigger] boundary[i])
}

/// Whether a text can be sent as the name of the file: it is not empty
/// and holds no quote, no `;` and no line feed.
pub open spec fn is_sendable_name(name: Seq<char>) -> bool {
    &&& name.len() > 0
    &&& forall|i: int|
        0 <= i < name.len() ==> (#[trigger] name[i]) != '"' && name[i] != ';' && name[i] != '\n'
}

/// Whether a text can be sent as the data of the file and come back as it
/// is: it is not empty, and it neither begins nor ends with white space.
pub open spec fn is_sendable_data(data: Seq<char>) -> bool {
    data.len() > 0 && !is_whitespace(data.first()) && !is_whitespace(data.last())
}

/// The disposition line gives the name of the file back.
pub proof fn lemma_name_of_disposition_line(name: Seq<char>)
    requires
        is_sendable_name(name),
    ensures
        disposition_file_name(disposition_line(name) + seq!['\r']) == Some(name),
{
    reveal_strlit("Content-Disposition: form-data; name=\"file\"; filename=\"");
    reveal_strlit("=");
    let lead = "Content-Disposition: form-data; name=\"file\"; filename=\""@;
    let line = disposition_line(name) + seq!['\r'];
    assert(lead.len() == 55);
    assert(line.len() == 57 + name.len());
    assert forall|j: int| 0 <= j < 55 implies line[j] == lead[j] by {}
    assert forall|j: int| 55 <= j < 55 + name.len() implies line[j] == name[j - 55] by {}
    let n = name.len() as int;
    assert(line[55 + n] == '"');
    assert(line[56 + n] == '\r');
    // the last `;` stands before ` filename=`
    assert(line[43] == ';');
    assert forall|j: int| 43 < j < line.len() implies line[j] != ';' by {
        if j < 55 {
            assert(line[j] == lead[j]);
        } else if j < 55 + name.len() {
            assert(line[j] == name[j - 55]);
        }
    }
    lemma_last_index_is(line, ';', 43);
    let part = line.skip(44);
    assert(split_at_last(line, ';') == Some((line.take(43), part)));
    // the first `=` of what follows it ends ` filename`
    assert forall|j: int| 0 <= j < part.len() implies part[j] == line[j + 44] by {}
    assert(part[9] == '=');
    assert forall|j: int| 0 <= j < 9 implies !occurs_at(part, seq!['='], j) by {
        lemma_occurs_single(part, '=', j);
        assert(part[j] == lead[j + 44]);
    }
    lemma_occurs_single(part, '=', 9);
    lemma_first_match_is(part, seq!['='], 0, 9);
    assert("="@ =~= seq!['=']);
    let quoted = part.skip(10);
    assert(split_at_first(part, "="@) == Some((part.take(9), quoted)));
    // in quotes, with a carriage return after them
    let inner = seq!['"'] + name + seq!['"'];
    assert(quoted =~= Seq::<char>::empty() + inner + seq!['\r']);
    assert(is_whitespace('\r') && !is_whitespace('"'));
    assert(inner.first() == '"' && inner.last() == '"');
    lemma_stripped_of_padded(Seq::<char>::empty(), inner, seq!['\r'], CharClass::Space);
    assert(trimmed(quoted) == inner);
    assert(name.first() == name[0] && name.last() == name[name.len() - 1]);
    lemma_stripped_of_padded(seq!['"'], name, seq!['"'], CharClass::Just('"'));
}

/// A text is cut at the first place of a character into what stands
/// before it and what stands after it.
pub proof fn lemma_split_at_first_char(before: Seq<char>, c: char, after: Seq<char>)
    requires
        forall|i: int| 0 <= i < before.len() ==> #[trigger] before[i] != c,
    ensures
        split_at_first(before + seq![c] + after, seq![c]) == Some((before, after)),
{
    let s = before + seq![c] + after;
    let n = before.len() as int;
    assert(s[n] == c);
    lemma_occurs_single(s, c, n);
    assert forall|j: int| 0 <= j < n implies !occurs_at(s, seq![c], j) by {
        lemma_occurs_single(s, c, j);
        assert(s[j] == before[j]);
    }
    lemma_first_match_is(s, seq![c], 0, n);
    assert(s.take(n) =~= before);
    assert(s.skip(n + 1) =~= after);
}

/// What stands between the boundary lines of a form with one file.
pub open spec fn form_core(name: Seq<char>, data: Seq<char>) -> Seq<char> {
    disposition_line(name) + seq!['\r', '\n'] + "Content-Type: text/plain"@ + seq![
        '\r',
        '\n',
        '\r',
        '\n',
    ] + data
}

/// The part of a form is cut into its disposition line, its type line and
/// its data.
pub proof fn lemma_pieces_of_form(name: Seq<char>, data: Seq<char>)
    requires
        is_sendable_name(name),
    ensures
        form_pieces(form_core(name, data)) == Some(
            (
                disposition_line(name) + seq!['\r'],
                "Content-Type: text/plain"@ + seq!['\r'],
                seq!['\r', '\n'] + data,
            ),
        ),
{
    reveal_strlit("Content-Disposition: form-data; name=\"file\"; filename=\"");
    reveal_strlit("Content-Type: text/plain");
    reveal_strlit("\n");
    assert("\n"@ =~= seq!['\n']);
    let lead = "Content-Disposition: form-data; name=\"file\"; filename=\""@;
    let first = disposition_line(name) + seq!['\r'];
    let kind = "Content-Type: text/plain"@ + seq!['\r'];
    let rest = kind + seq!['\n'] + (seq!['\r', '\n'] + data);
    let core = form_core(name, data);
    assert(core =~= first + seq!['\n'] + rest);
    assert forall|i: int| 0 <= i < first.len() implies #[trigger] first[i] != '\n' by {
        if i < 55 {
            assert(first[i] == lead[i]);
        } else if i < 55 + name.len() {
            assert(first[i] == name[i - 55]);
        }
    }
    lemma_split_at_first_char(first, '\n', rest);
    assert forall|i: int| 0 <= i < kind.len() implies #[trigger] kind[i] != '\n' by {
        if i < 24 {
            assert(kind[i] == "Content-Type: text/plain"@[i]);
        }
    }
    lemma_split_at_first_char(kind, '\n', seq!['\r', '\n'] + data);
}

/// What stands between the boundary lines of a form is found between
/// them.
pub proof fn lemma_inside_of_form(boundary: Seq<char>, name: Seq<char>, data: Seq<char>)
    requires
        is_boundary(boundary),
        is_sendable_data(data),
    ensures
        form_inside(form_text(boundary, name, data), boundary) == Some(form_core(name, data)),
{
    reveal_strlit("--");
    reveal_strlit("Content-Disposition: form-data; name=\"file\"; filename=\"");
    let dashes = seq!['-', '-'];
    assert("--"@ =~= dashes);
    let end = seq!['\r', '\n'];
    let core = form_core(name, data);
    let opening = dashes + boundary;
    let closing = dashes + boundary + dashes;
    let whole = opening + end + core + end + closing;
    let text = form_text(boundary, name, data);
    assert(text =~= Seq::<char>::empty() + whole + end);
    assert(is_whitespace('\r') && is_whitespace('\n') && !is_whitespace('-'));
    assert(whole.first() == '-');
    assert(whole.last() == closing.last() && closing.last() == '-');
    lemma_stripped_of_padded(Seq::<char>::empty(), whole, end, CharClass::Space);
    assert(trimmed(text) == whole);
    assert(whole.subrange(0, opening.len() as int) =~= opening);
    let rest = end + core + end + closing;
    assert(whole.skip(opening.len() as int) =~= rest);
    assert(without_prefix(whole, "--"@ + boundary) == Some(rest));
    assert(rest.subrange(rest.len() - closing.len(), rest.len() as int) =~= closing);
    let padded = end + core + end;
    assert(rest.take(rest.len() - closing.len()) =~= padded);
    assert("--"@ + boundary + "--"@ =~= closing);
    assert(without_suffix(rest, "--"@ + boundary + "--"@) == Some(padded));
    assert(core.first() == disposition_line(name)[0]);
    assert(disposition_line(name)[0]
        == "Content-Disposition: form-data; name=\"file\"; filename=\""@[0]);
    assert(!is_whitespace('C'));
    assert(core.last() == data.last());
    lemma_stripped_of_padded(end, core, end, CharClass::Space);
}

/// A form that carries one file is read as that file: the name is the
/// name that was sent, and the content is the data that was sent, in
/// UTF-8.
pub proof fn lemma_form_gives_the_file(boundary: Seq<char>, name: Seq<char>, data: Seq<char>)
    requires
        is_boundary(boundary),
        is_sendable_name(name),
        is_sendable_data(data),
    ensures
        form_file(form_text(boundary, name, data), boundary) == Some((name, encode_utf8(data))),
{
    lemma_inside_of_form(boundary, name, data);
    lemma_pieces_of_form(name, data);
    lemma_name_of_disposition_line(name);
    assert(is_whitespace('\r') && is_whitespace('\n'));
    lemma_stripped_of_padded(seq!['\r', '\n'], data, Seq::<char>::empty(), CharClass::Space);
    assert(seq!['\r', '\n'] + data =~= seq!['\r', '\n'] + data + Seq::<char>::empty());
}

/// The media type that declares a form with the given boundary.
pub open spec fn form_type(boundary: Seq<char>) -> Seq<char> {
    "multipart/form-data; boundary="@ + boundary
}

/// The media type of a form declares its boundary.
pub proof fn lemma_boundary_of_form_type(boundary: Seq<char>)
    requires
        is_boundary(boundary),
    ensures
        boundary_of(form_type(boundary)) == Some(boundary),
        occurs_at(form_type(boundary), "multipart/form-data"@, 0),
{
    reveal_strlit("multipart/form-data; boundary=");
    reveal_strlit("multipart/form-data");
    reveal_strlit("boundary=");
    let lead = "multipart/form-data; boundary="@;
    let kind = form_type(boundary);
    let marker = "boundary="@;
    assert(lead.len() == 30 && marker.len() == 9);
    assert forall|j: int| 0 <= j < 30 implies kind[j] == lead[j] by {}
    assert(kind.subrange(21, 30) =~= marker);
    assert forall|j: int| 0 <= j < 21 implies !occurs_at(kind, marker, j) by {
        if occurs_at(kind, marker, j) {
            assert(kind.subrange(j, j + 9)[0] == kind[j]);
            assert(marker[0] == 'b');
            assert(kind[j] == lead[j]);
        }
    }
    lemma_first_match_is(kind, marker, 0, 21);
    assert(kind.skip(30) =~= boundary);
    assert(boundary =~= Seq::<char>::empty() + boundary + Seq::<char>::empty());
    assert(boundary.first() == boundary[0] && boundary.last() == boundary[boundary.len() - 1]);
    lemma_stripped_of_padded(
        Seq::<char>::empty(),
        boundary,
        Seq::<char>::empty(),
        CharClass::Space,
    );
    assert(kind.subrange(0, 19) =~= "multipart/form-data"@);
}

/// The bytes of a form that carries one file, declared with their length
/// and followed by whatever else, are read as that file, unless they are
/// more than the limit allows.
pub proof fn lemma_form_bytes_give_the_file(
    boundary: Seq<char>,
    name: Seq<char>,
    data: Seq<char>,
    more: Seq<u8>,
)
    requires
        is_boundary(boundary),
        is_sendable_name(name),
        is_sendable_data(data),
        encode_utf8(form_text(boundary, name, data)).len() <= MAX_FILE_SIZE,
    ensures
        multipart_file(
            encode_utf8(form_text(boundary, name, data)) + more,
            form_type(boundary),
            encode_utf8(form_text(boundary, name, data)).len(),
        ) == Some((name, encode_utf8(data))),
{
    let text = form_text(boundary, name, data);
    let body = encode_utf8(text);
    lemma_boundary_of_form_type(boundary);
    lemma_form_gives_the_file(boundary, name, data);
    encode_utf8_valid_utf8(text);
    encode_utf8_decode_utf8(text);
    assert((body + more).take(body.len() as int) =~= body);
}

/// A line without line feed in it, ended by CR LF, is the first line of
/// the bytes that it begins, and what follows it is the rest.
pub proof fn lemma_first_line_of_bytes(content: Seq<char>, rest: Seq<u8>)
    requires
        single_line(content),
    ensures
        line_ended(encode_utf8(content + seq!['\r', '\n']) + rest),
        line_length(encode_utf8(content + seq!['\r', '\n']) + rest) == encode_utf8(
            content + seq!['\r', '\n'],
        ).len(),
        (encode_utf8(content + seq!['\r', '\n']) + rest).take(
            encode_utf8(content + seq!['\r', '\n']).len() as int,
        ) == encode_utf8(content + seq!['\r', '\n']),
        (encode_utf8(content + seq!['\r', '\n']) + rest).skip(
            encode_utf8(content + seq!['\r', '\n']).len() as int,
        ) == rest,
        valid_utf8(encode_utf8(content + seq!['\r', '\n'])),
        decode_utf8(encode_utf8(content + seq!['\r', '\n'])) == content + seq!['\r', '\n'],
        encode_utf8(content + seq!['\r', '\n']).len() >= 2,
{
    let line = content + seq!['\r', '\n'];
    let bytes = encode_utf8(line);
    let stream = bytes + rest;
    lemma_bytes_of_concat(content, seq!['\r', '\n']);
    lemma_bytes_of_line_end();
    lemma_bytes_of_single_line(content);
    let front = encode_utf8(content);
    let n = front.len() as int;
    assert(bytes =~= front + seq![13u8, 10u8]);
    let feed = seq![10u8];
    assert(stream[n + 1] == 10);
    assert(stream.subrange(n + 1, n + 2) =~= feed);
    assert forall|j: int| 0 <= j < n + 1 implies !occurs_at(stream, feed, j) by {
        if occurs_at(stream, feed, j) {
            assert(stream.subrange(j, j + 1)[0] == stream[j]);
            assert(feed[0] == 10);
            if j < n {
                assert(stream[j] == front[j]);
            } else {
                assert(stream[j] == 13);
            }
        }
    }
    lemma_first_match_is(stream, feed, 0, n + 1);
    assert(stream.take(n + 2) =~= bytes);
    assert(stream.skip(n + 2) =~= rest);
    encode_utf8_valid_utf8(line);
    encode_utf8_decode_utf8(line);
}

/// Whether a text comes back as it is when white space is trimmed off
/// it: it is not empty, and it neither begins nor ends with white space.
pub open spec fn is_trim(s: Seq<char>) -> bool {
    s.len() > 0 && !is_whitespace(s.first()) && !is_whitespace(s.last())
}

/// A field line as it is written is read back as the field, where name
/// and value are trim, the name holds no `:`, and the name is in header
/// case already.
pub proof fn lemma_field_line_is_read(name: Seq<char>, value: Seq<char>)
    requires
        is_trim(name),
        is_trim(value),
        forall|i: int| 0 <= i < name.len() ==> #[trigger] name[i] != ':',
        header_case(name) == name,
    ensures
        header_field(field_line((name, value))) == Some((name, value)),
        field_line((name, value)) != blank_line(),
{
    let after = seq![' '] + value + seq!['\r', '\n'];
    let line = field_line((name, value));
    assert(line =~= name + seq![':'] + after);
    lemma_split_at_first_char(name, ':', after);
    assert(is_whitespace(' ') && is_whitespace('\r') && is_whitespace('\n'));
    assert(name =~= Seq::<char>::empty() + name + Seq::<char>::empty());
    lemma_stripped_of_padded(Seq::<char>::empty(), name, Seq::<char>::empty(), CharClass::Space);
    lemma_stripped_of_padded(seq![' '], value, seq!['\r', '\n'], CharClass::Space);
    assert(line.len() > 2);
}

/// The decimal numeral of a number is read back as the number.
pub proof fn lemma_numeral_is_read(n: nat)
    ensures
        all_digits(decimal(n)),
        digits_value(decimal(n)) == n,
        decimal(n).len() > 0,
        n <= usize::MAX ==> unsigned_number(decimal(n)) == Some(n),
    decreases n,
{
    let d = digit(n % 10);
    assert(d == ((48 + n % 10) as u8) as char);
    assert(is_digit(d) && (d as u8) - 48 == n % 10);
    if n >= 10 {
        lemma_numeral_is_read(n / 10);
        let front = decimal(n / 10);
        let s = decimal(n);
        assert(s.drop_last() =~= front);
        assert(s.last() == d);
        assert forall|i: int| 0 <= i < s.len() implies is_digit(#[trigger] s[i]) by {
            if i < front.len() {
                assert(s[i] == front[i]);
            }
        }
    } else {
        let s = decimal(n);
        assert(s.len() == 1 && s[0] == d);
        assert(s.drop_last() =~= Seq::<char>::empty());
        assert(digits_value(s.drop_last()) == 0);
    }
    assert(is_digit(decimal(n)[0]));
}

/// The request line of an upload.
pub open spec fn upload_line() -> Seq<char> {
    HttpMethod::Post.name() + seq![' '] + "/upload"@ + seq![' '] + "HTTP/1.1"@ + blank_line()
}

/// The header fields of an upload: the media type of the form with its
/// boundary, and the length of the body.
pub open spec fn upload_fields(boundary: Seq<char>, length: nat) -> Seq<(Seq<char>, Seq<char>)> {
    seq![("Content-Type"@, form_type(boundary)), ("Content-Length"@, decimal(length))]
}

/// The bytes of a request that uploads one file: the request line, the
/// two header lines, an empty line, and the form.
pub open spec fn upload_request(boundary: Seq<char>, name: Seq<char>, data: Seq<char>) -> Seq<
    u8,
> {
    let body = encode_utf8(form_text(boundary, name, data));
    encode_utf8(
        upload_line() + field_line(("Content-Type"@, form_type(boundary))) + field_line(
            ("Content-Length"@, decimal(body.len())),
        ) + blank_line(),
    ) + body
}

/// A text that is not empty has bytes.
pub proof fn lemma_bytes_not_empty(s: Seq<char>)
    requires
        s.len() > 0,
    ensures
        encode_utf8(s).len() > 0,
{
    lemma_bytes_of_char(s[0]);
}

/// The two header lines of an upload, and the empty line after them, are
/// read as the two fields, and the form is what follows.
pub proof fn lemma_upload_fields_are_read(boundary: Seq<char>, length: nat, body: Seq<u8>)
    requires
        is_boundary(boundary),
    ensures
        stream_fields(
            encode_utf8(field_line(("Content-Type"@, form_type(boundary)))) + (encode_utf8(
                field_line(("Content-Length"@, decimal(length))),
            ) + (encode_utf8(blank_line()) + body)),
            Seq::empty(),
        ) == Some((upload_fields(boundary, length), body)),
{
    reveal_strlit("Content-Type");
    reveal_strlit("Content-Length");
    reveal_strlit("multipart/form-data; boundary=");
    let kind_name = "Content-Type"@;
    let length_name = "Content-Length"@;
    let kind = form_type(boundary);
    let size = decimal(length);
    let sep = seq![':', ' '];
    let end = seq!['\r', '\n'];
    let lead = "multipart/form-data; boundary="@;
    // the names
    lemma_header_case_of_canonical(kind_name);
    lemma_header_case_of_canonical(length_name);
    assert(is_trim(kind_name) && is_trim(length_name)) by {
        assert(kind_name.first() == 'C' && kind_name.last() == 'e');
        assert(length_name.first() == 'C' && length_name.last() == 'h');
        assert(!is_whitespace('C') && !is_whitespace('e') && !is_whitespace('h'));
    }
    // the values
    assert(kind.len() == 30 + boundary.len());
    assert forall|i: int| 0 <= i < 30 implies kind[i] == lead[i] by {}
    assert forall|i: int| 30 <= i < kind.len() implies kind[i] == boundary[i - 30] by {}
    assert(is_trim(kind)) by {
        assert(kind.first() == 'm' && !is_whitespace('m'));
        assert(kind.last() == boundary[boundary.len() - 1]);
    }
    lemma_numeral_is_read(length);
    assert(is_trim(size)) by {
        assert(is_digit(size[0]) && is_digit(size[size.len() - 1]));
    }
    lemma_field_line_is_read(kind_name, kind);
    lemma_field_line_is_read(length_name, size);
    // the lines
    let first = kind_name + sep + kind;
    let second = length_name + sep + size;
    assert(field_line((kind_name, kind)) =~= first + end);
    assert(field_line((length_name, size)) =~= second + end);
    assert(blank_line() =~= Seq::<char>::empty() + end);
    assert(is_whitespace('\n'));
    assert(single_line(first)) by {
        assert forall|i: int| 0 <= i < first.len() implies #[trigger] first[i] != '\n' by {
            if i < 12 {
                assert(first[i] == kind_name[i]);
            } else if i < 14 {
                assert(first[i] == sep[i - 12]);
            } else {
                assert(first[i] == kind[i - 14]);
                if i - 14 >= 30 {
                    assert(!is_whitespace(boundary[i - 44]));
                }
            }
        }
    }
    assert(single_line(second)) by {
        assert forall|i: int| 0 <= i < second.len() implies #[trigger] second[i] != '\n' by {
            if i < 14 {
                assert(second[i] == length_name[i]);
            } else if i < 16 {
                assert(second[i] == sep[i - 14]);
            } else {
                assert(second[i] == size[i - 16]);
                assert(is_digit(size[i - 16]));
            }
        }
    }
    let third = encode_utf8(blank_line()) + body;
    let second_on = encode_utf8(field_line((length_name, size))) + third;
    let first_on = encode_utf8(field_line((kind_name, kind))) + second_on;
    lemma_first_line_of_bytes(first, second_on);
    lemma_first_line_of_bytes(second, third);
    lemma_first_line_of_bytes(Seq::<char>::empty(), body);
    // the fields, one after the other
    let none = Seq::<(Seq<char>, Seq<char>)>::empty();
    lemma_position_of(none, kind_name);
    let one = with_field(none, kind_name, kind);
    assert(one =~= seq![(kind_name, kind)]);
    lemma_position_of(one, length_name);
    assert(one[0].0.len() != length_name.len());
    let two = with_field(one, length_name, size);
    assert(two =~= upload_fields(boundary, length));
    assert(stream_fields(third, two) == Some((two, body)));
    assert(stream_fields(second_on, one) == Some((two, body)));
    assert(stream_fields(first_on, none) == Some((two, body)));
}

/// A request that uploads one file is read as what it says: the method,
/// the path and the version of its request line, its two header fields,
/// and as its body the file with the name and the data that were sent.
pub proof fn lemma_upload_is_read(boundary: Seq<char>, name: Seq<char>, data: Seq<char>)
    requires
        is_boundary(boundary),
        is_sendable_name(name),
        is_sendable_data(data),
        encode_utf8(form_text(boundary, name, data)).len() <= MAX_FILE_SIZE,
    ensures
        parsed_request(upload_request(boundary, name, data)) == Ok::<_, ErrorKind>(
            RequestModel {
                method: HttpMethod::Post,
                path: "/upload"@,
                version: "HTTP/1.1"@,
                fields: upload_fields(
                    boundary,
                    encode_utf8(form_text(boundary, name, data)).len(),
                ),
                body: Some((name, encode_utf8(data))),
            },
        ),
{
    reveal_strlit("POST");
    reveal_strlit("/upload");
    reveal_strlit("HTTP/1.1");
    reveal_strlit("Content-Type");
    reveal_strlit("Content-Length");
    let text = form_text(boundary, name, data);
    let body = encode_utf8(text);
    let length = body.len();
    let kind = form_type(boundary);
    let size = decimal(length);
    let end = seq!['\r', '\n'];
    // the request line
    let method = HttpMethod::Post.name();
    let path = "/upload"@;
    let version = "HTTP/1.1"@;
    assert(is_token(method) && is_token(path) && is_token(version)) by {
        assert forall|i: int| 0 <= i < method.len() implies !is_whitespace(
            #[trigger] method[i],
        ) by {}
        assert forall|i: int| 0 <= i < path.len() implies !is_whitespace(#[trigger] path[i]) by {}
        assert forall|i: int| 0 <= i < version.len() implies !is_whitespace(
            #[trigger] version[i],
        ) by {}
    }
    lemma_method_name_is_read(HttpMethod::Post);
    lemma_request_line_round_trip(method, path, version);
    let line = method + seq![' '] + path + seq![' '] + version;
    assert(upload_line() =~= line + end);
    assert(single_line(line)) by {
        assert(is_whitespace('\n'));
        assert forall|i: int| 0 <= i < line.len() implies #[trigger] line[i] != '\n' by {
            if i < 4 {
                assert(line[i] == method[i]);
            } else if i == 4 {
            } else if i < 12 {
                assert(line[i] == path[i - 5]);
            } else if i == 12 {
            } else {
                assert(line[i] == version[i - 13]);
            }
        }
    }
    // the bytes, line by line
    let first = field_line(("Content-Type"@, kind));
    let second = field_line(("Content-Length"@, size));
    let after_line = encode_utf8(first) + (encode_utf8(second) + (encode_utf8(blank_line())
        + body));
    lemma_bytes_of_concat(upload_line(), first);
    lemma_bytes_of_concat(upload_line() + first, second);
    lemma_bytes_of_concat(upload_line() + first + second, blank_line());
    let stream = upload_request(boundary, name, data);
    assert(stream =~= encode_utf8(upload_line()) + after_line);
    lemma_first_line_of_bytes(line, after_line);
    lemma_upload_fields_are_read(boundary, length, body);
    // the body that the fields declare
    let fields = upload_fields(boundary, length);
    assert(fields[0].0.len() != "Content-Length"@.len());
    lemma_position_is(fields, "Content-Length"@, 1);
    lemma_position_is(fields, "Content-Type"@, 0);
    assert(value_of(fields, "Content-Length"@) == Some(size));
    assert(value_of(fields, "Content-Type"@) == Some(kind));
    lemma_numeral_is_read(length);
    assert(text.len() > 0);
    lemma_bytes_not_empty(text);
    lemma_boundary_of_form_type(boundary);
    assert(declared_body(fields) == Ok::<_, ErrorKind>(Some((kind, length))));
    lemma_form_bytes_give_the_file(boundary, name, data, Seq::<u8>::empty());
    assert(body + Seq::<u8>::empty() =~= body);
    assert(request_body(body, fields) == Ok::<_, ErrorKind>(Some((name, encode_utf8(data)))));
}

/// An upload from end to end. The bytes of a request that uploads one
/// file with a plain name and an allowed extension are read as a request
/// on the upload route; the file is to be written under the uploads
/// directory by its name, with the data that was sent; and the response
/// that is sent once it is written is, byte for byte, the redirect to the
/// index page, with a length of 0 and no body.
pub proof fn lemma_upload_end_to_end(boundary: Seq<char>, name: Seq<char>, data: Seq<char>)
    requires
        is_boundary(boundary),
        is_sendable_name(name),
        is_sendable_data(data),
        is_plain_name(name),
        valid_filename(name),
        encode_utf8(form_text(boundary, name, data)).len() <= MAX_FILE_SIZE,
    ensures
        parsed_request(upload_request(boundary, name, data)) matches Ok(request) && {
            &&& route_of(request.method, request.path) == Route::Upload
            &&& upload_outcome(request.body) == Ok::<_, ErrorKind>(
                ("uploads"@ + seq!['/'] + name, encode_utf8(data)),
            )
        },
        wire("HTTP/1.1"@, HttpStatus::SeeOther, seq![("Location"@, "/"@)], None) == encode_utf8(
            "HTTP/1.1 303 SEE OTHER\r\nLocation: /\r\nContent-Length: 0\r\n\r\n"@,
        ),
{
    lemma_upload_is_read(boundary, name, data);
    lemma_plain_upload_is_accepted(name, encode_utf8(data));
    lemma_redirect_on_the_wire();
}

} // verus!
