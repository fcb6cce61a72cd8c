//! Character-level vocabulary shared by the parsers: character classes, runs
//! at either end of a sequence, trimming, searching and splitting.
//!
//! Every executable function works on a slice of characters and is specified
//! over the slice's view, a `Seq<char>`.

use vstd::prelude::*;
use vstd::slice::slice_subrange;
use vstd::std_specs::iter::IteratorSpec;

verus! {

/// The characters that carry the Unicode `White_Space` property.
pub open spec fn is_whitespace(c: char) -> bool {
    let u = c as u32;
    ||| 0x09 <= u <= 0x0D
    ||| u == 0x20
    ||| u == 0x85
    ||| u == 0xA0
    ||| u == 0x1680
    ||| 0x2000 <= u <= 0x200A
    ||| u == 0x2028
    ||| u == 0x2029
    ||| u == 0x202F
    ||| u == 0x205F
    ||| u == 0x3000
}

/// Tells whether `c` is a white-space character.
pub fn char_is_whitespace(c: char) -> (r: bool)
    ensures
        r == is_whitespace(c),
{
    let u: u32 = c as u32;
    (0x09 <= u && u <= 0x0D) || u == 0x20 || u == 0x85 || u == 0xA0 || u == 0x1680 || (0x2000 <= u
        && u <= 0x200A) || u == 0x2028 || u == 0x2029 || u == 0x202F || u == 0x205F || u == 0x3000
}

/// A set of characters that a run is made of.
#[derive(Clone, Copy, Debug)]
pub enum CharClass {
    /// White space.
    Space,
    /// Everything but white space.
    Solid,
    /// One given character.
    Just(char),
}

impl CharClass {
    /// Whether `c` belongs to the class.
    pub open spec fn holds(self, c: char) -> bool {
        match self {
            CharClass::Space => is_whitespace(c),
            CharClass::Solid => !is_whitespace(c),
            CharClass::Just(d) => c == d,
        }
    }

    /// Tests whether `c` belongs to the class.
    pub fn test(&self, c: char) -> (r: bool)
        ensures
            r == self.holds(c),
    {
        match self {
            CharClass::Space => char_is_whitespace(c),
            CharClass::Solid => !char_is_whitespace(c),
            CharClass::Just(d) => c == *d,
        }
    }
}

/// The length of the longest prefix of `s` made of characters of `class`.
pub open spec fn leading_run(s: Seq<char>, class: CharClass) -> nat
    decreases s.len(),
{
    if s.len() > 0 && class.holds(s[0]) {
        1 + leading_run(s.drop_first(), class)
    } else {
        0
    }
}

/// The length of the longest suffix of `s` made of characters of `class`.
pub open spec fn trailing_run(s: Seq<char>, class: CharClass) -> nat
    decreases s.len(),
{
    if s.len() > 0 && class.holds(s.last()) {
        1 + trailing_run(s.drop_last(), class)
    } else {
        0
    }
}

/// A leading run is the one prefix of class characters that stops at the
/// end of the sequence or before a character outside the class.
pub proof fn lemma_leading_run_is(s: Seq<char>, class: CharClass, n: int)
    requires
        0 <= n <= s.len(),
        forall|i: int| 0 <= i < n ==> class.holds(#[trigger] s[i]),
        n < s.len() ==> !class.holds(s[n]),
    ensures
        leading_run(s, class) == n,
    decreases s.len(),
{
    if n > 0 {
        let t = s.drop_first();
        assert forall|i: int| 0 <= i < n - 1 implies class.holds(#[trigger] t[i]) by {
            assert(t[i] == s[i + 1]);
        }
        lemma_leading_run_is(t, class, n - 1);
    }
}

/// A trailing run is the one suffix of class characters that starts at the
/// beginning of the sequence or after a character outside the class.
pub proof fn lemma_trailing_run_is(s: Seq<char>, class: CharClass, n: int)
    requires
        0 <= n <= s.len(),
        forall|i: int| s.len() - n <= i < s.len() ==> class.holds(#[trigger] s[i]),
        n < s.len() ==> !class.holds(s[s.len() - n - 1]),
    ensures
        trailing_run(s, class) == n,
    decreases s.len(),
{
    if n > 0 {
        let t = s.drop_last();
        assert forall|i: int| t.len() - (n - 1) <= i < t.len() implies class.holds(
            #[trigger] t[i],
        ) by {
            assert(t[i] == s[i]);
        }
        lemma_trailing_run_is(t, class, n - 1);
    }
}

/// What a leading run says of each position.
pub proof fn lemma_leading_run_bounds(s: Seq<char>, class: CharClass)
    ensures
        leading_run(s, class) <= s.len(),
        forall|i: int| 0 <= i < leading_run(s, class) ==> class.holds(#[trigger] s[i]),
        leading_run(s, class) < s.len() ==> !class.holds(s[leading_run(s, class) as int]),
    decreases s.len(),
{
    if s.len() > 0 && class.holds(s[0]) {
        let t = s.drop_first();
        lemma_leading_run_bounds(t, class);
        assert forall|i: int| 0 <= i < leading_run(s, class) implies class.holds(
            #[trigger] s[i],
        ) by {
            if i > 0 {
                assert(s[i] == t[i - 1]);
            }
        }
        if leading_run(s, class) < s.len() {
            assert(s[leading_run(s, class) as int] == t[leading_run(t, class) as int]);
        }
    }
}

/// Counts the characters of `class` at the start of `s`.
pub fn count_leading(s: &[char], class: CharClass) -> (n: usize)
    ensures
        n == leading_run(s@, class),
        n <= s@.len(),
{
    let mut i: usize = 0;
    while i < s.len() && class.test(s[i])
        invariant
            i <= s.len(),
            forall|j: int| 0 <= j < i ==> class.holds(#[trigger] s@[j]),
        decreases s.len() - i,
    {
        i += 1;
    }
    proof {
        lemma_leading_run_is(s@, class, i as int);
    }
    i
}

/// Counts the characters of `class` at the end of `s`.
pub fn count_trailing(s: &[char], class: CharClass) -> (n: usize)
    ensures
        n == trailing_run(s@, class),
        n <= s@.len(),
{
    let mut i: usize = 0;
    while i < s.len() && class.test(s[s.len() - i - 1])
        invariant
            i <= s.len(),
            forall|j: int| s.len() - i <= j < s.len() ==> class.holds(#[trigger] s@[j]),
        decreases s.len() - i,
    {
        i += 1;
    }
    proof {
        lemma_trailing_run_is(s@, class, i as int);
    }
    i
}

/// `s` without its leading run of `class`.
pub open spec fn without_leading(s: Seq<char>, class: CharClass) -> Seq<char> {
    s.skip(leading_run(s, class) as int)
}

/// `s` without its trailing run of `class`.
pub open spec fn without_trailing(s: Seq<char>, class: CharClass) -> Seq<char> {
    s.take(s.len() - trailing_run(s, class))
}

/// `s` without the runs of `class` at both ends.
pub open spec fn stripped(s: Seq<char>, class: CharClass) -> Seq<char> {
    without_trailing(without_leading(s, class), class)
}

/// `s` without the white space at both ends.
pub open spec fn trimmed(s: Seq<char>) -> Seq<char> {
    stripped(s, CharClass::Space)
}

/// Removes the leading run of `class`.
pub fn strip_leading<'a>(s: &'a [char], class: CharClass) -> (r: &'a [char])
    ensures
        r@ == without_leading(s@, class),
{
    let n = count_leading(s, class);
    slice_subrange(s, n, s.len())
}

/// Removes the runs of `class` at both ends.
pub fn strip<'a>(s: &'a [char], class: CharClass) -> (r: &'a [char])
    ensures
        r@ == stripped(s@, class),
{
    let head = strip_leading(s, class);
    let n = count_trailing(head, class);
    slice_subrange(head, 0, head.len() - n)
}

/// Removes the white space at both ends.
pub fn trim<'a>(s: &'a [char]) -> (r: &'a [char])
    ensures
        r@ == trimmed(s@),
{
    strip(s, CharClass::Space)
}

/// Whether `pat` stands in `s` at offset `i`.
pub open spec fn occurs_at<T>(s: Seq<T>, pat: Seq<T>, i: int) -> bool {
    &&& 0 <= i
    &&& i + pat.len() <= s.len()
    &&& s.subrange(i, i + pat.len()) == pat
}

/// The least offset from `from` on at which `pat` stands in `s`.
pub open spec fn first_match_from<T>(s: Seq<T>, pat: Seq<T>, from: int) -> Option<int>
    decreases s.len() - from,
{
    if from < 0 || from + pat.len() > s.len() {
        None
    } else if occurs_at(s, pat, from) {
        Some(from)
    } else if from < s.len() {
        first_match_from(s, pat, from + 1)
    } else {
        None
    }
}

/// The least offset at which `pat` stands in `s`.
pub open spec fn first_match<T>(s: Seq<T>, pat: Seq<T>) -> Option<int> {
    first_match_from(s, pat, 0)
}

/// The greatest index at which `s` holds the character `c`.
pub open spec fn last_index_of(s: Seq<char>, c: char) -> Option<int>
    decreases s.len(),
{
    if s.len() == 0 {
        None
    } else if s.last() == c {
        Some(s.len() - 1)
    } else {
        last_index_of(s.drop_last(), c)
    }
}

/// A first match is an occurrence with none before it.
pub proof fn lemma_first_match_is<T>(s: Seq<T>, pat: Seq<T>, from: int, i: int)
    requires
        0 <= from <= i,
        occurs_at(s, pat, i),
        forall|j: int| from <= j < i ==> !occurs_at(s, pat, j),
    ensures
        first_match_from(s, pat, from) == Some(i),
    decreases i - from,
{
    if from < i {
        lemma_first_match_is(s, pat, from + 1, i);
    }
}

/// Where nothing occurs, nothing is found.
pub proof fn lemma_first_match_none<T>(s: Seq<T>, pat: Seq<T>, from: int)
    requires
        forall|j: int| from <= j ==> !occurs_at(s, pat, j),
    ensures
        first_match_from(s, pat, from) is None,
    decreases s.len() - from,
{
    if !(from < 0 || from + pat.len() > s.len()) && from < s.len() {
        lemma_first_match_none(s, pat, from + 1);
    }
}

/// What a search result says of each offset.
pub proof fn lemma_first_match_bounds<T>(s: Seq<T>, pat: Seq<T>, from: int)
    requires
        0 <= from,
    ensures
        match first_match_from(s, pat, from) {
            Some(i) => {
                &&& from <= i
                &&& occurs_at(s, pat, i)
                &&& forall|j: int| from <= j < i ==> !occurs_at(s, pat, j)
            },
            None => forall|j: int| from <= j ==> !occurs_at(s, pat, j),
        },
    decreases s.len() - from,
{
    if !(from + pat.len() > s.len()) && !occurs_at(s, pat, from) {
        if from < s.len() {
            lemma_first_match_bounds(s, pat, from + 1);
        } else {
            assert(s.subrange(from, from + pat.len()) =~= pat);
        }
    }
}

/// The last index of a character is the one with none after it.
pub proof fn lemma_last_index_is(s: Seq<char>, c: char, i: int)
    requires
        0 <= i < s.len(),
        s[i] == c,
        forall|j: int| i < j < s.len() ==> s[j] != c,
    ensures
        last_index_of(s, c) == Some(i),
    decreases s.len(),
{
    if i < s.len() - 1 {
        let t = s.drop_last();
        assert(t[i] == s[i]);
        assert forall|j: int| i < j < t.len() implies t[j] != c by {
            assert(t[j] == s[j]);
        }
        lemma_last_index_is(t, c, i);
    }
}

/// Where the character does not occur, it has no last index.
pub proof fn lemma_last_index_none(s: Seq<char>, c: char)
    requires
        forall|j: int| 0 <= j < s.len() ==> s[j] != c,
    ensures
        last_index_of(s, c) is None,
    decreases s.len(),
{
    if s.len() > 0 {
        let t = s.drop_last();
        assert forall|j: int| 0 <= j < t.len() implies t[j] != c by {
            assert(t[j] == s[j]);
        }
        lemma_last_index_none(t, c);
    }
}

/// A one-character pattern occurs where the character stands.
pub proof fn lemma_occurs_single(s: Seq<char>, c: char, i: int)
    ensures
        occurs_at(s, seq![c], i) <==> (0 <= i < s.len() && s[i] == c),
{
    if 0 <= i < s.len() {
        assert(s.subrange(i, i + 1)[0] == s[i]);
        assert(seq![c][0] == c);
        if s[i] == c {
            assert(s.subrange(i, i + 1) =~= seq![c]);
        }
    }
}

/// Tests whether `pat` stands in `s` at offset `i`.
pub fn matches_at(s: &[char], pat: &[char], i: usize) -> (r: bool)
    ensures
        r == occurs_at(s@, pat@, i as int),
{
    if i > s.len() || pat.len() > s.len() - i {
        return false;
    }
    let mut k: usize = 0;
    while k < pat.len()
        invariant
            k <= pat.len(),
            i + pat.len() <= s.len(),
            forall|j: int| 0 <= j < k ==> s@[i + j] == pat@[j],
        decreases pat.len() - k,
    {
        if s[i + k] != pat[k] {
            proof {
                assert(s@.subrange(i as int, i + pat@.len())[k as int] == s@[i + k]);
            }
            return false;
        }
        k += 1;
    }
    proof {
        assert(s@.subrange(i as int, i + pat@.len()) =~= pat@);
    }
    true
}

/// Finds the first place at which `pat` stands in `s`.
pub fn find(s: &[char], pat: &[char]) -> (r: Option<usize>)
    ensures
        match r {
            Some(i) => first_match(s@, pat@) == Some(i as int) && i + pat@.len() <= s@.len(),
            None => first_match(s@, pat@) is None,
        },
{
    if pat.len() > s.len() {
        proof {
            lemma_first_match_none(s@, pat@, 0);
        }
        return None;
    }
    let last: usize = s.len() - pat.len();
    let mut i: usize = 0;
    loop
        invariant
            last == s.len() - pat.len(),
            i <= last,
            forall|j: int| 0 <= j < i ==> !occurs_at(s@, pat@, j),
        ensures
            forall|j: int| 0 <= j ==> !occurs_at(s@, pat@, j),
        decreases last - i,
    {
        if matches_at(s, pat, i) {
            proof {
                lemma_first_match_is(s@, pat@, 0, i as int);
            }
            return Some(i);
        }
        if i == last {
            break ;
        }
        i += 1;
    }
    proof {
        lemma_first_match_none(s@, pat@, 0);
    }
    None
}

/// Finds the last place at which `s` holds the character `c`.
pub fn rfind_char(s: &[char], c: char) -> (r: Option<usize>)
    ensures
        match r {
            Some(i) => last_index_of(s@, c) == Some(i as int) && i < s@.len(),
            None => last_index_of(s@, c) is None,
        },
{
    let mut i: usize = s.len();
    while i > 0
        invariant
            i <= s.len(),
            forall|j: int| i <= j < s.len() ==> s@[j] != c,
        decreases i,
    {
        i -= 1;
        if s[i] == c {
            proof {
                lemma_last_index_is(s@, c, i as int);
            }
            return Some(i);
        }
    }
    proof {
        lemma_last_index_none(s@, c);
    }
    None
}

/// The parts of `s` before and after the first place at which `pat` stands.
pub open spec fn split_at_first(s: Seq<char>, pat: Seq<char>) -> Option<(Seq<char>, Seq<char>)> {
    match first_match(s, pat) {
        Some(i) => Some((s.take(i), s.skip(i + pat.len()))),
        None => None,
    }
}

/// The parts of `s` before and after the last place at which it holds `c`.
pub open spec fn split_at_last(s: Seq<char>, c: char) -> Option<(Seq<char>, Seq<char>)> {
    match last_index_of(s, c) {
        Some(i) => Some((s.take(i), s.skip(i + 1))),
        None => None,
    }
}

/// `s` without the prefix `pat`, where it has that prefix.
pub open spec fn without_prefix(s: Seq<char>, pat: Seq<char>) -> Option<Seq<char>> {
    if occurs_at(s, pat, 0) {
        Some(s.skip(pat.len() as int))
    } else {
        None
    }
}

/// `s` without the suffix `pat`, where it has that suffix.
pub open spec fn without_suffix(s: Seq<char>, pat: Seq<char>) -> Option<Seq<char>> {
    if occurs_at(s, pat, s.len() - pat.len()) {
        Some(s.take(s.len() - pat.len()))
    } else {
        None
    }
}

/// Splits `s` around the first place at which `pat` stands.
pub fn split_once<'a>(s: &'a [char], pat: &[char]) -> (r: Option<(&'a [char], &'a [char])>)
    ensures
        match r {
            Some((a, b)) => split_at_first(s@, pat@) == Some((a@, b@)),
            None => split_at_first(s@, pat@) is None,
        },
{
    let n = s.len();
    match find(s, pat) {
        Some(i) => Some((slice_subrange(s, 0, i), slice_subrange(s, i + pat.len(), n))),
        None => None,
    }
}

/// Splits `s` around the last place at which it holds `c`.
pub fn rsplit_once_char<'a>(s: &'a [char], c: char) -> (r: Option<(&'a [char], &'a [char])>)
    ensures
        match r {
            Some((a, b)) => split_at_last(s@, c) == Some((a@, b@)),
            None => split_at_last(s@, c) is None,
        },
{
    let n = s.len();
    match rfind_char(s, c) {
        Some(i) => Some((slice_subrange(s, 0, i), slice_subrange(s, i + 1, n))),
        None => None,
    }
}

/// Tests whether `s` begins with `pat`.
pub fn starts_with(s: &[char], pat: &[char]) -> (r: bool)
    ensures
        r == occurs_at(s@, pat@, 0),
{
    matches_at(s, pat, 0)
}

/// Removes the prefix `pat` from `s`.
pub fn strip_prefix<'a>(s: &'a [char], pat: &[char]) -> (r: Option<&'a [char]>)
    ensures
        match r {
            Some(rest) => without_prefix(s@, pat@) == Some(rest@),
            None => without_prefix(s@, pat@) is None,
        },
{
    if matches_at(s, pat, 0) {
        Some(slice_subrange(s, pat.len(), s.len()))
    } else {
        None
    }
}

/// Removes the suffix `pat` from `s`.
pub fn strip_suffix<'a>(s: &'a [char], pat: &[char]) -> (r: Option<&'a [char]>)
    ensures
        match r {
            Some(rest) => without_suffix(s@, pat@) == Some(rest@),
            None => without_suffix(s@, pat@) is None,
        },
{
    if pat.len() <= s.len() && matches_at(s, pat, s.len() - pat.len()) {
        Some(slice_subrange(s, 0, s.len() - pat.len()))
    } else {
        None
    }
}

/// The character of a decimal digit.
pub open spec fn digit(d: nat) -> char
    recommends
        d < 10,
{
    ((48 + d) as u8) as char
}

/// The decimal numeral of `n`, without leading zeros.
pub open spec fn decimal(n: nat) -> Seq<char>
    decreases n,
{
    if n < 10 {
        seq![digit(n)]
    } else {
        decimal(n / 10).push(digit(n % 10))
    }
}

/// Appends the decimal numeral of `n` to `out`.
pub fn push_decimal(n: u64, out: &mut Vec<char>)
    ensures
        final(out)@ == old(out)@ + decimal(n as nat),
    decreases n,
{
    if n >= 10 {
        push_decimal(n / 10, out);
    }
    let d: u8 = (n % 10) as u8;
    out.push((48u8 + d) as char);
    assert(out@ =~= old(out)@ + decimal(n as nat));
}

/// Whether `c` is a decimal digit.
pub open spec fn is_digit(c: char) -> bool {
    '0' <= c <= '9'
}

/// Whether `s` is made of decimal digits.
pub open spec fn all_digits(s: Seq<char>) -> bool {
    forall|i: int| 0 <= i < s.len() ==> is_digit(#[trigger] s[i])
}

/// The number that a sequence of decimal digits writes.
pub open spec fn digits_value(s: Seq<char>) -> nat
    decreases s.len(),
{
    if s.len() == 0 {
        0
    } else {
        digits_value(s.drop_last()) * 10 + ((s.last() as u8) - 48) as nat
    }
}

/// The number that `s` writes: decimal digits, at least one, after an
/// optional `+`, with a value that fits the machine word.
pub open spec fn unsigned_number(s: Seq<char>) -> Option<nat> {
    let d = if s.len() > 0 && s[0] == '+' {
        s.skip(1)
    } else {
        s
    };
    if d.len() > 0 && all_digits(d) && digits_value(d) <= usize::MAX {
        Some(digits_value(d))
    } else {
        None
    }
}

/// A numeral is worth at least as much as each of its prefixes.
pub proof fn lemma_digits_value_prefix(s: Seq<char>, k: int)
    requires
        0 <= k <= s.len(),
        all_digits(s),
    ensures
        digits_value(s.take(k)) <= digits_value(s),
    decreases s.len() - k,
{
    if k < s.len() {
        let t = s.drop_last();
        assert forall|i: int| 0 <= i < t.len() implies is_digit(#[trigger] t[i]) by {
            assert(t[i] == s[i]);
        }
        lemma_digits_value_prefix(t, k);
        assert(t.take(k) =~= s.take(k));
        assert(is_digit(s[s.len() - 1]));
    } else {
        assert(s.take(k) =~= s);
    }
}

/// Reads a number in the form that `unsigned_number` describes.
pub fn parse_usize(s: &[char]) -> (r: Option<usize>)
    ensures
        match r {
            Some(n) => unsigned_number(s@) == Some(n as nat),
            None => unsigned_number(s@) is None,
        },
{
    let len = s.len();
    let d = if len > 0 && s[0] == '+' {
        slice_subrange(s, 1, len)
    } else {
        s
    };
    if d.len() == 0 {
        return None;
    }
    let mut acc: usize = 0;
    let mut i: usize = 0;
    assert(d@.take(0) =~= Seq::<char>::empty());
    while i < d.len()
        invariant
            i <= d.len(),
            d@.len() > 0,
            d@ == if s@.len() > 0 && s@[0] == '+' {
                s@.skip(1)
            } else {
                s@
            },
            all_digits(d@.take(i as int)),
            acc == digits_value(d@.take(i as int)),
        decreases d.len() - i,
    {
        let c = d[i];
        if !('0' <= c && c <= '9') {
            assert(!is_digit(d@[i as int]));
            return None;
        }
        let v: usize = ((c as u8) - 48) as usize;
        proof {
            let upto = d@.take(i + 1);
            assert(upto.drop_last() =~= d@.take(i as int));
            assert(upto.last() == c);
            assert forall|j: int| 0 <= j < upto.len() implies is_digit(#[trigger] upto[j]) by {
                if j < i {
                    assert(upto[j] == d@.take(i as int)[j]);
                }
            }
            assert(digits_value(upto) == acc * 10 + v);
        }
        if acc > (usize::MAX - v) / 10 {
            proof {
                if all_digits(d@) {
                    lemma_digits_value_prefix(d@, i + 1);
                }
            }
            return None;
        }
        acc = acc * 10 + v;
        i += 1;
    }
    assert(d@.take(i as int) =~= d@);
    Some(acc)
}

/// `s` with every occurrence of `pat` replaced by `to`, the occurrences
/// taken from the left and not overlapping. An empty `pat` replaces nothing.
pub open spec fn replaced(s: Seq<char>, pat: Seq<char>, to: Seq<char>) -> Seq<char>
    decreases s.len(),
{
    match first_match(s, pat) {
        Some(i) => if pat.len() > 0 && 0 <= i && i + pat.len() <= s.len() {
            s.take(i) + to + replaced(s.skip(i + pat.len()), pat, to)
        } else {
            s
        },
        None => s,
    }
}

/// Replaces every occurrence of `pat` in `s` by `to`.
pub fn replace_all(s: &[char], pat: &[char], to: &[char]) -> (out: Vec<char>)
    ensures
        out@ == replaced(s@, pat@, to@),
{
    let mut out: Vec<char> = Vec::new();
    if pat.len() == 0 {
        out.extend_from_slice(s);
        assert(out@ =~= s@);
        return out;
    }
    let mut rest: &[char] = s;
    assert(out@ + replaced(rest@, pat@, to@) =~= replaced(s@, pat@, to@));
    loop
        invariant_except_break
            out@ + replaced(rest@, pat@, to@) == replaced(s@, pat@, to@),
        invariant
            pat@.len() > 0,
        ensures
            out@ == replaced(s@, pat@, to@),
        decreases rest@.len(),
    {
        let n = rest.len();
        let ghost before = out@;
        let ghost old_rest = rest@;
        match find(rest, pat) {
            Some(i) => {
                out.extend_from_slice(slice_subrange(rest, 0, i));
                out.extend_from_slice(to);
                rest = slice_subrange(rest, i + pat.len(), n);
                proof {
                    assert(rest@ =~= old_rest.skip(i + pat@.len()));
                    assert(out@ + replaced(rest@, pat@, to@) =~= before + replaced(
                        old_rest,
                        pat@,
                        to@,
                    ));
                }
            },
            None => {
                out.extend_from_slice(rest);
                assert(out@ =~= before + replaced(old_rest, pat@, to@));
                break ;
            },
        }
    }
    out
}

/// `s` without every copy of `pat` that it begins with. An empty `pat`
/// removes nothing.
pub open spec fn without_leading_copies(s: Seq<char>, pat: Seq<char>) -> Seq<char>
    decreases s.len(),
{
    if pat.len() > 0 && occurs_at(s, pat, 0) {
        without_leading_copies(s.skip(pat.len() as int), pat)
    } else {
        s
    }
}

/// Removes every copy of `pat` that `s` begins with.
pub fn strip_leading_copies<'a>(s: &'a [char], pat: &[char]) -> (r: &'a [char])
    ensures
        r@ == without_leading_copies(s@, pat@),
{
    let mut rest: &[char] = s;
    if pat.len() == 0 {
        return rest;
    }
    while matches_at(rest, pat, 0)
        invariant
            pat@.len() > 0,
            without_leading_copies(rest@, pat@) == without_leading_copies(s@, pat@),
        decreases rest@.len(),
    {
        let n = rest.len();
        rest = slice_subrange(rest, pat.len(), n);
    }
    rest
}

/// Collects the characters of a string slice into a vector.
pub fn chars_of(s: &str) -> (out: Vec<char>)
    ensures
        out@ == s@,
{
    broadcast use vstd::string::group_string_axioms;

    let mut out: Vec<char> = Vec::new();
    let mut it = s.chars();
    loop
        invariant
            it.obeys_prophetic_iter_laws(),
            out@ + it.remaining() == s@,
            it.decrease() is Some,
        ensures
            out@ == s@,
        decreases it.decrease()->0,
    {
        match it.next() {
            Some(c) => {
                out.push(c);
                assert(out@ + it.remaining() =~= s@);
            },
            None => {
                assert(out@ =~= s@);
                break ;
            },
        }
    }
    out
}

} // verus!
