//! Text helpers shared by the rest of the crate: case normalisation,
//! whitespace tests, and conversions between `String` and `Vec<char>`.

use vstd::prelude::*;
use vstd::std_specs::iter::IteratorSpec;
use vstd::string::StringExecFns;

verus! {

broadcast use vstd::string::group_string_axioms;

/// The lowercase form that std's `str::to_lowercase` gives a text.
pub uninterp spec fn lowercase_of(text: Seq<char>) -> Seq<char>;

/// Whether a character has the Unicode property White_Space: the controls
/// from tab to carriage return, the space, and the spaces and separators
/// beyond ASCII.
pub open spec fn unicode_whitespace(c: char) -> bool {
    let u = c as u32;
    (0x09 <= u <= 0x0D) || u == 0x20 || u == 0x85 || u == 0xA0 || u == 0x1680 || (0x2000 <= u
        <= 0x200A) || u == 0x2028 || u == 0x2029 || u == 0x202F || u == 0x205F || u == 0x3000
}

/// An ASCII digit.
pub open spec fn is_digit(c: char) -> bool {
    '0' <= c && c <= '9'
}

/// A text of one or more ASCII digits.
pub open spec fn all_digits(text: Seq<char>) -> bool {
    text.len() > 0 && forall|i: int| 0 <= i < text.len() ==> is_digit(#[trigger] text[i])
}

/// The number that a text of digits writes in decimal.
pub open spec fn digits_value(text: Seq<char>) -> int
    decreases text.len(),
{
    if text.len() == 0 {
        0
    } else {
        digits_value(text.drop_last()) * 10 + (text.last() as int - 48)
    }
}

/// The number that a text writes: an optional sign, then one or more digits
/// and nothing else, where the number fits; else none.
pub open spec fn parsed_i64(text: Seq<char>) -> Option<i64> {
    let signed = text.len() > 0 && (text[0] == '-' || text[0] == '+');
    let body = if signed {
        text.drop_first()
    } else {
        text
    };
    let value = if signed && text[0] == '-' {
        -digits_value(body)
    } else {
        digits_value(body)
    };
    if all_digits(body) && i64::MIN <= value <= i64::MAX {
        Some(value as i64)
    } else {
        None
    }
}

/// The decimal digits of a natural number, without leading zeros.
pub open spec fn digits_of(n: nat) -> Seq<char>
    decreases n,
{
    if n < 10 {
        seq![(48 + n) as char]
    } else {
        digits_of(n / 10).push((48 + n % 10) as char)
    }
}

/// A number in decimal: its digits, after a minus sign where it is negative.
pub open spec fn decimal_text(value: int) -> Seq<char> {
    if value < 0 {
        seq!['-'] + digits_of((-value) as nat)
    } else {
        digits_of(value as nat)
    }
}

/// The decimal text of a signed number.
pub open spec fn decimal_of(value: i64) -> Seq<char> {
    decimal_text(value as int)
}

/// The text that std's `Debug` formatting writes for a list of texts: the
/// items in double quotes with special characters escaped, separated by
/// commas, in square brackets.
pub uninterp spec fn debug_list_of(items: Seq<Seq<char>>) -> Seq<char>;

/// Formats a list of texts with `{:?}`. Trusted: the result is the text named
/// by `debug_list_of`.
#[verifier::external_body]
pub(crate) fn debug_list(items: &Vec<String>) -> (r: String)
    ensures
        r@ == debug_list_of(views_of(items@)),
{
    format!("{:?}", items)
}

/// The decimal text of an unsigned number.
pub open spec fn decimal_of_u64(value: u64) -> Seq<char> {
    decimal_text(value as int)
}

/// Calls `u64::to_string`. Trusted: the result is the number in decimal,
/// without leading zeros.
#[verifier::external_body]
fn u64_to_string(value: u64) -> (r: String)
    ensures
        r@ == decimal_of_u64(value),
{
    value.to_string()
}

/// Calls `str::to_lowercase`. Trusted: the result is the lowercase form of
/// the argument, named `lowercase_of`.
#[verifier::external_body]
fn to_lowercase(text: &str) -> (r: String)
    ensures
        r@ == lowercase_of(text@),
{
    text.to_lowercase()
}

/// Calls `char::is_whitespace`. Trusted: the result says whether the
/// character has the Unicode property White_Space.
#[verifier::external_body]
fn char_is_whitespace(c: char) -> (r: bool)
    ensures
        r == unicode_whitespace(c),
{
    c.is_whitespace()
}

/// Calls `String::push`. Trusted: the character is appended and nothing else
/// changes.
#[verifier::external_body]
pub(crate) fn string_push(s: &mut String, c: char)
    ensures
        final(s)@ == old(s)@.push(c),
{
    s.push(c)
}

/// Calls `str::eq`. Trusted: two string slices are equal exactly when they
/// hold the same characters.
#[verifier::external_body]
fn str_equal(a: &str, b: &str) -> (r: bool)
    ensures
        r == (a@ == b@),
{
    a == b
}

/// Calls `str::parse::<i64>`. Trusted: the call reads an optional sign
/// followed by digits only, and fails on anything else and on a number that
/// does not fit.
#[verifier::external_body]
fn str_parse_i64(text: &str) -> (r: Option<i64>)
    ensures
        r == parsed_i64(text@),
{
    text.parse::<i64>().ok()
}

/// Calls `i64::to_string`. Trusted: the result is the number in decimal,
/// without leading zeros, after a minus sign where it is negative.
#[verifier::external_body]
fn i64_to_string(value: i64) -> (r: String)
    ensures
        r@ == decimal_of(value),
{
    value.to_string()
}

/// A text in which every character is whitespace (the empty text included).
pub open spec fn all_whitespace(text: Seq<char>) -> bool {
    forall|i: int| 0 <= i < text.len() ==> unicode_whitespace(#[trigger] text[i])
}

/// The canonical form under which an address is stored and looked up.
pub fn normalize_address(address: &str) -> (r: String)
    ensures
        r@ == lowercase_of(address@),
{
    to_lowercase(address)
}

/// Whether two texts hold the same characters.
pub fn same_text(a: &str, b: &str) -> (r: bool)
    ensures
        r == (a@ == b@),
{
    str_equal(a, b)
}

/// Reads a signed decimal number.
pub fn parse_i64(text: &str) -> (r: Option<i64>)
    ensures
        r == parsed_i64(text@),
{
    str_parse_i64(text)
}

/// Writes an unsigned number in decimal.
pub fn format_u64(value: u64) -> (r: String)
    ensures
        r@ == decimal_of_u64(value),
{
    u64_to_string(value)
}

/// Writes a number in decimal.
pub fn format_i64(value: i64) -> (r: String)
    ensures
        r@ == decimal_of(value),
{
    i64_to_string(value)
}

/// The characters of a text, in order.
pub fn chars_of(text: &str) -> (r: Vec<char>)
    ensures
        r@ == text@,
{
    let mut out: Vec<char> = Vec::new();
    let mut it = text.chars();
    loop
        invariant
            out@ + it.remaining() == text@,
            it.decrease() is Some,
        decreases it.decrease()->0,
    {
        match it.next() {
            Some(c) => {
                out.push(c);
            },
            None => {
                return out;
            },
        }
    }
}

/// The text made of the given characters.
pub fn text_of(chars: &Vec<char>) -> (r: String)
    ensures
        r@ == chars@,
{
    let mut out = String::new();
    let mut i: usize = 0;
    while i < chars.len()
        invariant
            i <= chars.len(),
            out@ == chars@.take(i as int),
        decreases chars.len() - i,
    {
        string_push(&mut out, chars[i]);
        i = i + 1;
    }
    out
}

/// True when the text is empty or consists of whitespace only.
pub fn is_blank(text: &str) -> (r: bool)
    ensures
        r == all_whitespace(text@),
{
    let chars = chars_of(text);
    let mut i: usize = 0;
    while i < chars.len()
        invariant
            i <= chars.len(),
            chars@ == text@,
            forall|j: int| 0 <= j < i ==> unicode_whitespace(#[trigger] text@[j]),
        decreases chars.len() - i,
    {
        if !char_is_whitespace(chars[i]) {
            return false;
        }
        i = i + 1;
    }
    true
}


/// The character sequences of a list of texts.
pub open spec fn views_of(texts: Seq<String>) -> Seq<Seq<char>> {
    texts.map_values(|s: String| s@)
}

/// Whether a list of texts holds the given one.
pub fn contains_text(texts: &Vec<String>, wanted: &str) -> (r: bool)
    ensures
        r == views_of(texts@).contains(wanted@),
{
    let mut i: usize = 0;
    while i < texts.len()
        invariant
            i <= texts.len(),
            forall|j: int| 0 <= j < i ==> views_of(texts@)[j] != wanted@,
        decreases texts.len() - i,
    {
        if str_equal(texts[i].as_str(), wanted) {
            assert(views_of(texts@)[i as int] == wanted@);
            return true;
        }
        i = i + 1;
    }
    false
}


/// Joins two texts.
pub fn concat2(a: &str, b: &str) -> (r: String)
    ensures
        r@ == a@ + b@,
{
    let mut out = a.to_owned();
    out.append(b);
    out
}

/// Joins three texts.
pub fn concat3(a: &str, b: &str, c: &str) -> (r: String)
    ensures
        r@ == a@ + b@ + c@,
{
    let mut out = a.to_owned();
    out.append(b);
    out.append(c);
    out
}


/// The lower-case form of an ASCII capital letter; any other character
/// stays as it is.
pub open spec fn ascii_lower(c: char) -> char {
    if 'A' <= c && c <= 'Z' {
        ((c as u8) + 32) as char
    } else {
        c
    }
}

/// A text with its ASCII capital letters in lower case.
pub open spec fn ascii_lowered(text: Seq<char>) -> Seq<char> {
    Seq::new(text.len(), |i: int| ascii_lower(text[i]))
}

/// Lower-cases one character, if it is an ASCII capital letter.
pub fn ascii_lower_char(c: char) -> (r: char)
    ensures
        r == ascii_lower(c),
{
    if 'A' <= c && c <= 'Z' {
        ((c as u8) + 32) as char
    } else {
        c
    }
}

/// Whether two texts are equal up to the case of ASCII letters.
pub fn same_text_ignoring_ascii_case(a: &str, b: &str) -> (r: bool)
    ensures
        r == (ascii_lowered(a@) == ascii_lowered(b@)),
{
    let x = chars_of(a);
    let y = chars_of(b);
    if x.len() != y.len() {
        assert(ascii_lowered(a@).len() != ascii_lowered(b@).len());
        return false;
    }
    let mut i: usize = 0;
    while i < x.len()
        invariant
            i <= x.len(),
            x.len() == y.len(),
            x@ == a@,
            y@ == b@,
            forall|j: int| 0 <= j < i ==> ascii_lower(#[trigger] a@[j]) == ascii_lower(b@[j]),
        decreases x.len() - i,
    {
        if ascii_lower_char(x[i]) != ascii_lower_char(y[i]) {
            assert(ascii_lowered(a@)[i as int] != ascii_lowered(b@)[i as int]);
            return false;
        }
        i = i + 1;
    }
    assert(ascii_lowered(a@) =~= ascii_lowered(b@));
    true
}

/// Writes `true` or `false`.
pub fn bool_text(b: bool) -> (r: &'static str)
    ensures
        r@ == bool_text_of(b),
{
    if b {
        "true"
    } else {
        "false"
    }
}

/// The text of a truth value.
pub open spec fn bool_text_of(b: bool) -> Seq<char> {
    if b {
        "true"@
    } else {
        "false"@
    }
}


/// A text without its leading whitespace.
pub open spec fn trim_start_of(text: Seq<char>) -> Seq<char>
    decreases text.len(),
{
    if text.len() > 0 && unicode_whitespace(text[0]) {
        trim_start_of(text.drop_first())
    } else {
        text
    }
}

/// A text without its trailing whitespace.
pub open spec fn trim_end_of(text: Seq<char>) -> Seq<char>
    decreases text.len(),
{
    if text.len() > 0 && unicode_whitespace(text.last()) {
        trim_end_of(text.drop_last())
    } else {
        text
    }
}

/// A text without its leading and trailing whitespace.
pub open spec fn trimmed(text: Seq<char>) -> Seq<char> {
    trim_end_of(trim_start_of(text))
}

/// The parts of a text between its commas, in order. A text without a comma
/// is one part; two commas in a row enclose an empty part.
pub open spec fn split_commas(text: Seq<char>) -> Seq<Seq<char>>
    decreases text.len(),
{
    if text.len() == 0 {
        seq![Seq::<char>::empty()]
    } else {
        let before = split_commas(text.drop_last());
        if text.last() == ',' {
            before.push(Seq::<char>::empty())
        } else {
            before.drop_last().push(before.last().push(text.last()))
        }
    }
}

proof fn lemma_trim_start(text: Seq<char>, a: int)
    requires
        0 <= a <= text.len(),
        forall|j: int| 0 <= j < a ==> unicode_whitespace(#[trigger] text[j]),
        a < text.len() ==> !unicode_whitespace(text[a]),
    ensures
        trim_start_of(text) == text.skip(a),
    decreases a,
{
    if a == 0 {
        assert(text.skip(0) =~= text);
    } else {
        assert(unicode_whitespace(text[0]));
        let rest = text.drop_first();
        assert forall|j: int| 0 <= j < a - 1 implies unicode_whitespace(#[trigger] rest[j]) by {
            assert(unicode_whitespace(text[j + 1]));
        }
        lemma_trim_start(rest, a - 1);
        assert(rest.skip(a - 1) =~= text.skip(a));
    }
}

proof fn lemma_trim_end(text: Seq<char>, b: int)
    requires
        0 <= b <= text.len(),
        forall|j: int| b <= j < text.len() ==> unicode_whitespace(#[trigger] text[j]),
        b > 0 ==> !unicode_whitespace(text[b - 1]),
    ensures
        trim_end_of(text) == text.take(b),
    decreases text.len() - b,
{
    if b == text.len() {
        assert(text.take(b) =~= text);
    } else {
        assert(unicode_whitespace(text[text.len() - 1]));
        let rest = text.drop_last();
        assert forall|j: int| b <= j < rest.len() implies unicode_whitespace(#[trigger] rest[j]) by {
            assert(unicode_whitespace(text[j]));
        }
        lemma_trim_end(rest, b);
        assert(rest.take(b) =~= text.take(b));
    }
}

/// The part of `chars` from `from` up to `to`, without leading and trailing
/// whitespace.
pub fn trim_range(chars: &Vec<char>, from: usize, to: usize) -> (r: String)
    requires
        from <= to <= chars.len(),
    ensures
        r@ == trimmed(chars@.subrange(from as int, to as int)),
{
    let ghost part = chars@.subrange(from as int, to as int);
    let mut a: usize = from;
    while a < to && char_is_whitespace(chars[a])
        invariant
            from <= a <= to <= chars.len(),
            part == chars@.subrange(from as int, to as int),
            forall|j: int| 0 <= j < a - from ==> unicode_whitespace(#[trigger] part[j]),
        decreases to - a,
    {
        a = a + 1;
    }
    proof {
        lemma_trim_start(part, a - from);
    }
    let ghost middle = part.skip(a - from);
    let mut b: usize = to;
    while b > a && char_is_whitespace(chars[b - 1])
        invariant
            from <= a <= b <= to <= chars.len(),
            part == chars@.subrange(from as int, to as int),
            middle == part.skip(a - from),
            forall|j: int| b - a <= j < middle.len() ==> unicode_whitespace(#[trigger] middle[j]),
        decreases b - a,
    {
        b = b - 1;
    }
    proof {
        lemma_trim_end(middle, b - a);
    }
    let mut out = String::new();
    let mut i: usize = a;
    while i < b
        invariant
            from <= a <= i <= b <= to <= chars.len(),
            out@ == chars@.subrange(a as int, i as int),
        decreases b - i,
    {
        string_push(&mut out, chars[i]);
        assert(chars@.subrange(a as int, i as int).push(chars@[i as int]) =~= chars@.subrange(
            a as int,
            i + 1,
        ));
        i = i + 1;
    }
    assert(chars@.subrange(a as int, b as int) =~= middle.take(b - a));
    out
}

/// A text without its leading and trailing whitespace.
pub fn trim(text: &str) -> (r: String)
    ensures
        r@ == trimmed(text@),
{
    let chars = chars_of(text);
    assert(chars@.subrange(0, chars.len() as int) =~= chars@);
    trim_range(&chars, 0, chars.len())
}

/// The parts of a text between its commas, each without leading and
/// trailing whitespace.
pub fn split_commas_trimmed(text: &str) -> (r: Vec<String>)
    ensures
        views_of(r@) == split_commas(text@).map_values(|part: Seq<char>| trimmed(part)),
{
    let chars = chars_of(text);
    let mut parts: Vec<String> = Vec::new();
    let mut start: usize = 0;
    let mut i: usize = 0;
    assert(chars@.take(0) =~= Seq::<char>::empty());
    assert(chars@.subrange(0, 0) =~= Seq::<char>::empty());
    while i < chars.len()
        invariant
            start <= i <= chars.len(),
            chars@ == text@,
            split_commas(chars@.take(i as int)).len() == parts.len() + 1,
            split_commas(chars@.take(i as int)).last() == chars@.subrange(start as int, i as int),
            forall|k: int|
                0 <= k < parts.len() ==> (#[trigger] parts@[k])@ == trimmed(
                    split_commas(chars@.take(i as int))[k],
                ),
        decreases chars.len() - i,
    {
        let ghost before = split_commas(chars@.take(i as int));
        let ghost next = chars@.take(i + 1);
        assert(next.drop_last() =~= chars@.take(i as int));
        assert(next.last() == chars@[i as int]);
        if chars[i] == ',' {
            let part = trim_range(&chars, start, i);
            parts.push(part);
            start = i + 1;
            assert(chars@.subrange(start as int, i + 1) =~= Seq::<char>::empty());
            assert(split_commas(next) == before.push(Seq::<char>::empty()));
        } else {
            assert(split_commas(next) == before.drop_last().push(
                before.last().push(chars@[i as int]),
            ));
            assert(chars@.subrange(start as int, i as int).push(chars@[i as int]) =~= chars@.subrange(
                start as int,
                i + 1,
            ));
        }
        i = i + 1;
    }
    assert(chars@.take(chars.len() as int) =~= chars@);
    let last = trim_range(&chars, start, chars.len());
    parts.push(last);
    assert(views_of(parts@) =~= split_commas(text@).map_values(
        |part: Seq<char>| trimmed(part),
    ));
    parts
}


/// The rest of a text after a prefix, or `None` where the text does not
/// start with the prefix.
pub open spec fn without_prefix(text: Seq<char>, prefix: Seq<char>) -> Option<Seq<char>> {
    if prefix.len() <= text.len() && text.take(prefix.len() as int) == prefix {
        Some(text.skip(prefix.len() as int))
    } else {
        None
    }
}

/// Strips a prefix off a text.
pub fn strip_prefix(text: &str, prefix: &str) -> (r: Option<String>)
    ensures
        crate::models::opt_text(r) == without_prefix(text@, prefix@),
{
    let t = chars_of(text);
    let p = chars_of(prefix);
    if p.len() > t.len() {
        return None;
    }
    let mut i: usize = 0;
    while i < p.len()
        invariant
            i <= p.len() <= t.len(),
            t@ == text@,
            p@ == prefix@,
            forall|j: int| 0 <= j < i ==> t@[j] == p@[j],
        decreases p.len() - i,
    {
        if t[i] != p[i] {
            assert(text@.take(prefix@.len() as int)[i as int] != prefix@[i as int]);
            return None;
        }
        i = i + 1;
    }
    assert(text@.take(prefix@.len() as int) =~= prefix@);
    let mut out = String::new();
    let mut k: usize = p.len();
    while k < t.len()
        invariant
            p.len() <= k <= t.len(),
            out@ == t@.subrange(p.len() as int, k as int),
        decreases t.len() - k,
    {
        string_push(&mut out, t[k]);
        assert(t@.subrange(p.len() as int, k as int).push(t@[k as int]) =~= t@.subrange(
            p.len() as int,
            k + 1,
        ));
        k = k + 1;
    }
    assert(t@.subrange(p.len() as int, t.len() as int) =~= text@.skip(prefix@.len() as int));
    Some(out)
}


/// Copies a list of texts.
pub fn clone_texts(texts: &Vec<String>) -> (r: Vec<String>)
    ensures
        views_of(r@) == views_of(texts@),
{
    let mut out: Vec<String> = Vec::new();
    let mut i: usize = 0;
    while i < texts.len()
        invariant
            i <= texts.len(),
            out.len() == i,
            forall|j: int| 0 <= j < i ==> (#[trigger] out@[j])@ == texts@[j]@,
        decreases texts.len() - i,
    {
        out.push(texts[i].clone());
        i = i + 1;
    }
    assert(views_of(out@) =~= views_of(texts@));
    out
}

/// Whether the optional text holds the given characters.
pub fn opt_text_is(value: &Option<String>, wanted: &str) -> (r: bool)
    ensures
        r == (crate::models::opt_text(*value) == Some(wanted@)),
{
    match value {
        Some(s) => same_text(s.as_str(), wanted),
        None => false,
    }
}

} // verus!
