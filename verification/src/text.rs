//! Text helpers: ASCII case folding, prefixes and suffixes, decimal numbers.

use vstd::prelude::*;
use vstd::string::*;

verus! {

/// An ASCII upper-case letter as its lower-case letter; any other character
/// as it is.
pub open spec fn lower_char(c: char) -> char {
    if 'A' <= c && c <= 'Z' {
        ((c as u8 + 32) as u8) as char
    } else {
        c
    }
}

/// A text with each of its ASCII upper-case letters in lower case.
pub open spec fn ascii_lower(s: Seq<char>) -> Seq<char> {
    s.map_values(|c: char| lower_char(c))
}

/// Whether two texts are the same but for the case of their ASCII letters.
pub open spec fn same_ignoring_case(a: Seq<char>, b: Seq<char>) -> bool {
    ascii_lower(a) == ascii_lower(b)
}

/// `str::to_ascii_lowercase` returns a copy in which the ASCII letters 'A' to
/// 'Z' are mapped to 'a' to 'z' and every other character is unchanged.
pub assume_specification[ str::to_ascii_lowercase ](s: &str) -> (lower: String)
    ensures
        lower@ == ascii_lower(s@),
;

/// `str::eq_ignore_ascii_case` says whether the two texts have the same
/// ASCII lower-case form.
pub assume_specification[ str::eq_ignore_ascii_case ](a: &str, b: &str) -> (same: bool)
    ensures
        same == same_ignoring_case(a@, b@),
;

/// A decimal digit as a text of one character.
pub open spec fn digit(d: int) -> Seq<char> {
    if d == 0 {
        "0"@
    } else if d == 1 {
        "1"@
    } else if d == 2 {
        "2"@
    } else if d == 3 {
        "3"@
    } else if d == 4 {
        "4"@
    } else if d == 5 {
        "5"@
    } else if d == 6 {
        "6"@
    } else if d == 7 {
        "7"@
    } else if d == 8 {
        "8"@
    } else {
        "9"@
    }
}

/// The decimal digits of a number, most significant first, without leading
/// zeros; "0" for zero.
pub open spec fn decimal_digits(n: nat) -> Seq<char>
    decreases n,
{
    if n < 10 {
        digit(n as int)
    } else {
        decimal_digits(n / 10) + digit((n % 10) as int)
    }
}

/// The text of a decimal digit.
pub fn digit_text(d: u32) -> (text: &'static str)
    requires
        d < 10,
    ensures
        text@ == digit(d as int),
{
    if d == 0 {
        "0"
    } else if d == 1 {
        "1"
    } else if d == 2 {
        "2"
    } else if d == 3 {
        "3"
    } else if d == 4 {
        "4"
    } else if d == 5 {
        "5"
    } else if d == 6 {
        "6"
    } else if d == 7 {
        "7"
    } else if d == 8 {
        "8"
    } else {
        "9"
    }
}

/// The digits that are still to be written in front of those written.
spec fn digits_in_front(rest: nat) -> Seq<char> {
    if rest > 0 {
        decimal_digits(rest)
    } else {
        Seq::empty()
    }
}

/// Writes a number in decimal.
pub fn decimal_text(n: u32) -> (text: String)
    ensures
        text@ == decimal_digits(n as nat),
{
    let mut text = String::from_str(digit_text(n % 10));
    let mut rest = n / 10;
    proof {
        assert(decimal_digits(n as nat) =~= digits_in_front(rest as nat) + text@);
    }
    while rest > 0
        invariant
            decimal_digits(n as nat) == digits_in_front(rest as nat) + text@,
        decreases rest,
    {
        let ghost before = text@;
        let head = String::from_str(digit_text(rest % 10));
        text = joined(head.as_str(), text.as_str());
        proof {
            let r = rest as nat;
            assert(digits_in_front(r) =~= digits_in_front(r / 10) + digit((r % 10) as int));
            assert(digits_in_front(r / 10) + digit((r % 10) as int) + before =~= digits_in_front(
                r / 10,
            ) + text@);
        }
        rest = rest / 10;
    }
    proof {
        assert(digits_in_front(0) + text@ =~= text@);
    }
    text
}

/// Whether `s` ends in `suffix`.
pub open spec fn has_suffix(s: Seq<char>, suffix: Seq<char>) -> bool {
    suffix.len() <= s.len() && s.subrange(s.len() - suffix.len(), s.len() as int) == suffix
}

/// Whether `s` begins with `prefix`.
pub open spec fn has_prefix(s: Seq<char>, prefix: Seq<char>) -> bool {
    prefix.len() <= s.len() && s.subrange(0, prefix.len() as int) == prefix
}

/// Tells whether `s` ends in `suffix`.
pub fn ends_with(s: &str, suffix: &str) -> (found: bool)
    ensures
        found == has_suffix(s@, suffix@),
{
    let n = s.unicode_len();
    let m = suffix.unicode_len();
    if m > n {
        return false;
    }
    let start = n - m;
    let mut i: usize = 0;
    while i < m
        invariant
            n == s@.len(),
            m == suffix@.len(),
            m <= n,
            start == n - m,
            i <= m,
            forall|j: int| 0 <= j < i ==> s@[start + j] == suffix@[j],
        decreases m - i,
    {
        if s.get_char(start + i) != suffix.get_char(i) {
            assert(s@.subrange(n - m, n as int)[i as int] == s@[start + i]);
            return false;
        }
        i += 1;
    }
    assert(s@.subrange(n - m, n as int) =~= suffix@);
    true
}

/// Tells whether `s` begins with `prefix`.
pub fn starts_with(s: &str, prefix: &str) -> (found: bool)
    ensures
        found == has_prefix(s@, prefix@),
{
    let n = s.unicode_len();
    let m = prefix.unicode_len();
    if m > n {
        return false;
    }
    let mut i: usize = 0;
    while i < m
        invariant
            n == s@.len(),
            m == prefix@.len(),
            m <= n,
            i <= m,
            forall|j: int| 0 <= j < i ==> s@[j] == prefix@[j],
        decreases m - i,
    {
        if s.get_char(i) != prefix.get_char(i) {
            assert(s@.subrange(0, m as int)[i as int] == s@[i as int]);
            return false;
        }
        i += 1;
    }
    assert(s@.subrange(0, m as int) =~= prefix@);
    true
}

/// The two texts joined.
pub fn joined(a: &str, b: &str) -> (text: String)
    ensures
        text@ == a@ + b@,
{
    let mut text = String::from_str(a);
    text.append(b);
    text
}

/// The texts of a sequence of strings.
pub open spec fn string_views(strings: Seq<String>) -> Seq<Seq<char>> {
    strings.map_values(|s: String| s@)
}

/// The text that is shown for something that may be absent: the text
/// itself, or "<none>".
pub open spec fn shown(text: Option<Seq<char>>) -> Seq<char> {
    match text {
        Some(text) => text,
        None => "<none>"@,
    }
}

/// Writes what is shown for a text that may be absent.
pub fn format_option(option: Option<&str>) -> (text: String)
    ensures
        text@ == shown(
            match option {
                Some(value) => Some(value@),
                None => None,
            },
        ),
{
    match option {
        Some(value) => String::from_str(value),
        None => String::from_str("<none>"),
    }
}

/// Writes what is shown for a tag that may be absent.
pub fn format_tag(tag: Option<u32>) -> (text: String)
    ensures
        text@ == shown(
            match tag {
                Some(tag) => Some(decimal_digits(tag as nat)),
                None => None,
            },
        ),
{
    match tag {
        Some(tag) => decimal_text(tag),
        None => String::from_str("<none>"),
    }
}

} // verus!
