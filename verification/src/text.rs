use vstd::prelude::*;

verus! {

broadcast use vstd::string::group_string_axioms;

/// Whether `c` is an ASCII letter.
pub open spec fn is_ascii_letter(c: char) -> bool {
    ('a' <= c && c <= 'z') || ('A' <= c && c <= 'Z')
}

/// Whether `c` is an ASCII digit.
pub open spec fn is_ascii_digit(c: char) -> bool {
    '0' <= c && c <= '9'
}

/// Whether a non-ASCII `c` has Unicode's Alphabetic property, as `char::is_alphabetic` reports it.
pub uninterp spec fn unicode_alphabetic(c: char) -> bool;

/// Whether a non-ASCII `c` is alphabetic or numeric, as `char::is_alphanumeric` reports it.
pub uninterp spec fn unicode_alphanumeric(c: char) -> bool;

/// Whether a non-ASCII `c` has Unicode's Uppercase property, as `char::is_uppercase` reports it.
pub uninterp spec fn unicode_uppercase(c: char) -> bool;

/// Whether a non-ASCII `c` has Unicode's White_Space property, as `char::is_whitespace` reports it.
pub uninterp spec fn unicode_whitespace(c: char) -> bool;

/// `char::is_alphabetic`: the ASCII letters, and the non-ASCII characters with the property.
pub open spec fn char_is_alphabetic(c: char) -> bool {
    if (c as u32) < 0x80 {
        is_ascii_letter(c)
    } else {
        unicode_alphabetic(c)
    }
}

/// `char::is_alphanumeric`: the ASCII letters and digits, and the non-ASCII
/// characters with the property.
pub open spec fn char_is_alphanumeric(c: char) -> bool {
    if (c as u32) < 0x80 {
        is_ascii_letter(c) || is_ascii_digit(c)
    } else {
        unicode_alphanumeric(c)
    }
}

/// `char::is_uppercase`: `A` to `Z`, and the non-ASCII characters with the property.
pub open spec fn char_is_uppercase(c: char) -> bool {
    if (c as u32) < 0x80 {
        'A' <= c && c <= 'Z'
    } else {
        unicode_uppercase(c)
    }
}

/// `char::is_whitespace`: the space and tab to carriage return, and the
/// non-ASCII characters with the property.
pub open spec fn char_is_whitespace(c: char) -> bool {
    if (c as u32) < 0x80 {
        c == ' ' || ('\t' <= c && c <= '\r')
    } else {
        unicode_whitespace(c)
    }
}

/// `char::is_alphabetic`: whether `c` has the Alphabetic property of the
/// Unicode Character Database (DerivedCoreProperties.txt, which the
/// documentation cites); among ASCII characters the letters have it. As
/// `char::is_alphanumeric` is documented as `is_alphabetic() || is_numeric()`,
/// an alphabetic character is alphanumeric too.
#[verifier::external_body]
pub(crate) fn is_alphabetic(c: char) -> (r: bool)
    ensures
        (c as u32) < 0x80 ==> r == is_ascii_letter(c),
        (c as u32) >= 0x80 ==> r == unicode_alphabetic(c),
        r ==> char_is_alphanumeric(c),
{
    c.is_alphabetic()
}

/// `char::is_alphanumeric`: documented as `is_alphabetic() || is_numeric()`,
/// where a numeric character has a general category for numbers; among ASCII
/// characters the letters and digits are.
#[verifier::external_body]
pub(crate) fn is_alphanumeric(c: char) -> (r: bool)
    ensures
        (c as u32) < 0x80 ==> r == (is_ascii_letter(c) || is_ascii_digit(c)),
        (c as u32) >= 0x80 ==> r == unicode_alphanumeric(c),
        char_is_alphabetic(c) ==> r,
{
    c.is_alphanumeric()
}

/// `char::is_uppercase`: whether `c` has the Uppercase property of the Unicode
/// Character Database; among ASCII characters `A` to `Z` have it.
#[verifier::external_body]
pub(crate) fn is_uppercase(c: char) -> (r: bool)
    ensures
        (c as u32) < 0x80 ==> r == ('A' <= c && c <= 'Z'),
        (c as u32) >= 0x80 ==> r == unicode_uppercase(c),
{
    c.is_uppercase()
}

/// `char::is_whitespace`: whether `c` has the White_Space property of the
/// Unicode Character Database; among ASCII characters the space and the
/// characters from tab to carriage return have it.
#[verifier::external_body]
pub(crate) fn is_whitespace(c: char) -> (r: bool)
    ensures
        (c as u32) < 0x80 ==> r == (c == ' ' || ('\t' <= c && c <= '\r')),
        (c as u32) >= 0x80 ==> r == unicode_whitespace(c),
{
    c.is_whitespace()
}

/// `String::push`: appends one character.
#[verifier::external_body]
pub(crate) fn push_char(s: &mut String, c: char)
    ensures
        final(s)@ == old(s)@.push(c),
{
    s.push(c);
}

/// Appends the characters of `t` to `s`.
pub fn push_chars(s: &mut String, t: &[char])
    ensures
        final(s)@ == old(s)@ + t@,
{
    let ghost start = s@;
    let mut i: usize = 0;
    while i < t.len()
        invariant
            i <= t@.len(),
            s@ == start + t@.take(i as int),
        decreases t@.len() - i,
    {
        push_char(s, t[i]);
        i = i + 1;
        assert(t@.take(i as int) == t@.take(i - 1) .push(t@[i - 1]));
    }
    assert(t@.take(i as int) == t@);
}

/// Appends the characters of `t` to `s`.
pub fn push_str(s: &mut String, t: &str)
    ensures
        final(s)@ == old(s)@ + t@,
{
    let cs = chars_of(t);
    push_chars(s, cs.as_slice());
}

/// A new string holding `cs[start..end]`.
pub fn string_from_range(cs: &[char], start: usize, end: usize) -> (r: String)
    requires
        start <= end <= cs@.len(),
    ensures
        r@ == cs@.subrange(start as int, end as int),
{
    let mut r = String::new();
    let mut i: usize = start;
    while i < end
        invariant
            start <= i <= end <= cs@.len(),
            r@ == cs@.subrange(start as int, i as int),
        decreases end - i,
    {
        push_char(&mut r, cs[i]);
        i = i + 1;
        assert(cs@.subrange(start as int, i as int) == cs@.subrange(start as int, i - 1).push(cs@[i - 1]));
    }
    r
}

/// Collects the characters of `s`.
pub fn chars_of(s: &str) -> (v: Vec<char>)
    ensures
        v@ == s@,
{
    let mut v: Vec<char> = Vec::new();
    for c in it: s.chars()
        invariant
            v@ == it.seq().take(it.index() as int),
    {
        v.push(c);
    }
    v
}

/// Whether two strings hold the same characters.
pub fn str_eq(a: &str, b: &str) -> (r: bool)
    ensures
        r == (a@ == b@),
{
    let x = chars_of(a);
    let y = chars_of(b);
    if x.len() != y.len() {
        return false;
    }
    let mut i: usize = 0;
    while i < x.len()
        invariant
            x@ == a@,
            y@ == b@,
            x@.len() == y@.len(),
            i <= x@.len(),
            x@.take(i as int) == y@.take(i as int),
        decreases x@.len() - i,
    {
        if x[i] != y[i] {
            assert(x@[i as int] != y@[i as int]);
            return false;
        }
        assert(x@.take(i + 1) =~= x@.take(i as int).push(x@[i as int]));
        assert(y@.take(i + 1) =~= y@.take(i as int).push(y@[i as int]));
        i = i + 1;
    }
    assert(x@.take(i as int) =~= x@);
    assert(y@.take(i as int) =~= y@);
    true
}

/// The number of bytes of `c` in UTF-8.
pub open spec fn utf8_width(c: char) -> int {
    if (c as u32) < 0x80 {
        1
    } else if (c as u32) < 0x800 {
        2
    } else if (c as u32) < 0x10000 {
        3
    } else {
        4
    }
}

/// The number of bytes of `c` in UTF-8.
pub fn char_width(c: char) -> (w: usize)
    ensures
        w == utf8_width(c),
{
    let u = c as u32;
    if u < 0x80 {
        1
    } else if u < 0x800 {
        2
    } else if u < 0x10000 {
        3
    } else {
        4
    }
}

} // verus!
