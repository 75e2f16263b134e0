//! Text: white space, cutting at a delimiter, and numbers in decimal digits.

use vstd::prelude::*;

verus! {

/// Whether `c` has Unicode's White_Space property.
pub open spec fn is_white_space(c: char) -> bool {
    let n = c as u32;
    (0x09 <= n <= 0x0D) || n == 0x20 || n == 0x85 || n == 0xA0 || n == 0x1680 || (0x2000 <= n
        <= 0x200A) || n == 0x2028 || n == 0x2029 || n == 0x202F || n == 0x205F || n == 0x3000
}

/// Whether `s` holds nothing but white space.
pub open spec fn is_blank(s: Seq<char>) -> bool {
    forall|i: int| 0 <= i < s.len() ==> is_white_space(#[trigger] s[i])
}

/// Whether `s` holds a white-space character.
pub open spec fn has_white_space(s: Seq<char>) -> bool {
    exists|i: int| 0 <= i < s.len() && is_white_space(#[trigger] s[i])
}

/// Whether `t` is `s[from..to]` and that is `s` without its leading and
/// trailing white space.
pub open spec fn trims_to(s: Seq<char>, from: int, to: int, t: Seq<char>) -> bool {
    &&& 0 <= from <= to <= s.len()
    &&& t == s.subrange(from, to)
    &&& forall|k: int| 0 <= k < from ==> is_white_space(#[trigger] s[k])
    &&& forall|k: int| to <= k < s.len() ==> is_white_space(#[trigger] s[k])
    &&& from < to ==> !is_white_space(s[from]) && !is_white_space(s[to - 1])
}

/// `str::trim`. Trusted: the result is the part of `s` that is left when the
/// white space at both ends is taken away.
#[verifier::external_body]
pub(crate) fn trim<'a>(s: &'a str) -> (t: &'a str)
    ensures
        exists|from: int, to: int| trims_to(s@, from, to, t@),
{
    s.trim()
}

/// `str::split_once` with `char::is_whitespace` as the pattern. Trusted: the
/// result is `None` where `s` holds no white-space character, and otherwise
/// the text before the first such character and the text after it.
#[verifier::external_body]
pub(crate) fn split_once_white_space<'a>(s: &'a str) -> (r: Option<(&'a str, &'a str)>)
    ensures
        match r {
            Some((head, tail)) => (exists|c: char|
                is_white_space(c) && s@ == head@ + seq![c] + tail@) && !has_white_space(head@),
            None => !has_white_space(s@),
        },
{
    s.split_once(char::is_whitespace)
}

/// The character of the decimal digit `n` (0 to 9).
pub open spec fn digit(n: int) -> char {
    if n <= 0 {
        '0'
    } else if n == 1 {
        '1'
    } else if n == 2 {
        '2'
    } else if n == 3 {
        '3'
    } else if n == 4 {
        '4'
    } else if n == 5 {
        '5'
    } else if n == 6 {
        '6'
    } else if n == 7 {
        '7'
    } else if n == 8 {
        '8'
    } else {
        '9'
    }
}

/// The two decimal digits of a number below 100.
pub open spec fn two_digits(n: int) -> Seq<char> {
    seq![digit(n / 10), digit(n % 10)]
}

/// The decimal digits of a number that is not negative, without leading zeros.
pub open spec fn decimal(n: int) -> Seq<char>
    decreases n,
{
    if n < 10 {
        seq![digit(n)]
    } else {
        decimal(n / 10).push(digit(n % 10))
    }
}

/// `ToString::to_string` of `u32`, which goes by its `Display`. Trusted: the
/// text is the number in decimal digits, without sign or leading zeros.
#[verifier::external_body]
pub(crate) fn u32_to_string(n: u32) -> (r: String)
    ensures
        r@ == decimal(n as int),
{
    n.to_string()
}

/// Whether `s` is empty once trimmed.
pub fn is_blank_str(s: &str) -> (r: bool)
    ensures
        r == is_blank(s@),
{
    let t = trim(s);
    proof {
        let (from, to) = choose|from: int, to: int| trims_to(s@, from, to, t@);
        if t@.len() == 0 {
            assert forall|i: int| 0 <= i < s@.len() implies is_white_space(#[trigger] s@[i]) by {
                assert(i < from || to <= i);
            }
        } else {
            assert(!is_white_space(s@[from]));
        }
    }
    t.is_empty()
}

} // verus!
