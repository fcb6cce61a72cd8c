//! Conversions between `String`, characters and bytes.
//!
//! The standard library functions used here have no specification of their
//! own in `vstd`; the contracts given to them below are believed, not proved.

use vstd::prelude::*;
use vstd::utf8::{decode_utf8, encode_utf8, valid_utf8};

verus! {

/// `String::push` appends the one character to the end of the string.
pub assume_specification[ String::push ](s: &mut String, c: char)
    ensures
        final(s)@ == old(s)@.push(c),
;

/// The upper-case mapping of a character outside ASCII, as the Unicode
/// character database gives it: one character or several.
pub uninterp spec fn unicode_upper(c: char) -> Seq<char>;

/// `char::to_uppercase`, collected: the characters of the upper-case mapping
/// of `c` in order.
#[verifier::external_body]
pub(crate) fn upper_mapping(c: char) -> (out: Vec<char>)
    ensures
        out@ == unicode_upper(c),
{
    c.to_uppercase().collect()
}

/// The lower-case mapping of a character outside ASCII, as the Unicode
/// character database gives it: one character or several.
pub uninterp spec fn unicode_lower(c: char) -> Seq<char>;

/// `char::to_lowercase`, collected: the characters of the lower-case mapping
/// of `c` in order.
#[verifier::external_body]
pub(crate) fn lower_mapping(c: char) -> (out: Vec<char>)
    ensures
        out@ == unicode_lower(c),
{
    c.to_lowercase().collect()
}

/// `String::from_utf8`: succeeds exactly on well-formed UTF-8, and the
/// string it gives encodes to the bytes it was given.
#[verifier::external_body]
pub(crate) fn decode(bytes: Vec<u8>) -> (r: Option<String>)
    ensures
        r is Some <==> valid_utf8(bytes@),
        r is Some ==> r->0@ == decode_utf8(bytes@),
{
    String::from_utf8(bytes).ok()
}

/// Builds a string from its characters.
pub fn string_of(chars: &[char]) -> (out: String)
    ensures
        out@ == chars@,
{
    let mut out = String::new();
    let mut i: usize = 0;
    while i < chars.len()
        invariant
            i <= chars.len(),
            out@ == chars@.take(i as int),
        decreases chars.len() - i,
    {
        out.push(chars[i]);
        i += 1;
        assert(out@ =~= chars@.take(i as int));
    }
    assert(chars@.take(i as int) =~= chars@);
    out
}

/// The UTF-8 encoding of a sequence of characters.
pub fn bytes_of(chars: &[char]) -> (out: Vec<u8>)
    ensures
        out@ == encode_utf8(chars@),
{
    let s = string_of(chars);
    s.as_str().as_bytes_vec()
}

/// The upper-case form of an ASCII character.
pub open spec fn ascii_upper(c: char) -> char {
    if 'a' <= c <= 'z' {
        ((c as u8) - 32) as char
    } else {
        c
    }
}

/// The upper-case mapping of a character: for ASCII the one upper-case
/// character, beyond ASCII what the Unicode character database gives.
pub open spec fn upper(c: char) -> Seq<char> {
    if (c as u32) < 128 {
        seq![ascii_upper(c)]
    } else {
        unicode_upper(c)
    }
}

/// The upper-case form of a text: the mappings of its characters in order.
pub open spec fn uppercase(s: Seq<char>) -> Seq<char>
    decreases s.len(),
{
    if s.len() == 0 {
        Seq::empty()
    } else {
        uppercase(s.drop_last()) + upper(s.last())
    }
}

/// Appends the upper-case mapping of `c` to `out`.
pub fn push_upper(c: char, out: &mut Vec<char>)
    ensures
        final(out)@ == old(out)@ + upper(c),
{
    if (c as u32) < 128 {
        if 'a' <= c && c <= 'z' {
            out.push(((c as u8) - 32) as char);
        } else {
            out.push(c);
        }
        assert(out@ =~= old(out)@ + upper(c));
    } else {
        let mut mapped = upper_mapping(c);
        out.append(&mut mapped);
    }
}

/// The upper-case form of a text.
pub fn to_uppercase(s: &[char]) -> (out: Vec<char>)
    ensures
        out@ == uppercase(s@),
{
    let mut out: Vec<char> = Vec::new();
    let mut i: usize = 0;
    assert(s@.take(0) =~= Seq::<char>::empty());
    while i < s.len()
        invariant
            i <= s.len(),
            out@ == uppercase(s@.take(i as int)),
        decreases s.len() - i,
    {
        proof {
            let upto = s@.take(i + 1);
            assert(upto.drop_last() =~= s@.take(i as int));
            assert(upto.last() == s@[i as int]);
        }
        push_upper(s[i], &mut out);
        i += 1;
    }
    assert(s@.take(i as int) =~= s@);
    out
}

/// The lower-case form of an ASCII character.
pub open spec fn ascii_lower(c: char) -> char {
    if 'A' <= c <= 'Z' {
        ((c as u8) + 32) as char
    } else {
        c
    }
}

/// The lower-case mapping of a character: for ASCII the one lower-case
/// character, beyond ASCII what the Unicode character database gives.
pub open spec fn lower(c: char) -> Seq<char> {
    if (c as u32) < 128 {
        seq![ascii_lower(c)]
    } else {
        unicode_lower(c)
    }
}

/// The lower-case form of a text: the mappings of its characters in order.
pub open spec fn lowercase(s: Seq<char>) -> Seq<char>
    decreases s.len(),
{
    if s.len() == 0 {
        Seq::empty()
    } else {
        lowercase(s.drop_last()) + lower(s.last())
    }
}

/// Appends the lower-case mapping of `c` to `out`.
pub fn push_lower(c: char, out: &mut Vec<char>)
    ensures
        final(out)@ == old(out)@ + lower(c),
{
    if (c as u32) < 128 {
        if 'A' <= c && c <= 'Z' {
            out.push(((c as u8) + 32) as char);
        } else {
            out.push(c);
        }
        assert(out@ =~= old(out)@ + lower(c));
    } else {
        let mut mapped = lower_mapping(c);
        out.append(&mut mapped);
    }
}

/// Appends the lower-case form of a text to `out`.
pub fn push_lowercase(s: &[char], out: &mut Vec<char>)
    ensures
        final(out)@ == old(out)@ + lowercase(s@),
{
    let mut i: usize = 0;
    assert(s@.take(0) =~= Seq::<char>::empty());
    assert(out@ =~= old(out)@ + lowercase(s@.take(0)));
    while i < s.len()
        invariant
            i <= s.len(),
            out@ == old(out)@ + lowercase(s@.take(i as int)),
        decreases s.len() - i,
    {
        let ghost before = out@;
        proof {
            let upto = s@.take(i + 1);
            assert(upto.drop_last() =~= s@.take(i as int));
            assert(upto.last() == s@[i as int]);
        }
        push_lower(s[i], out);
        proof {
            assert(out@ =~= old(out)@ + lowercase(s@.take(i + 1)));
        }
        i += 1;
    }
    assert(s@.take(i as int) =~= s@);
}

} // verus!
