//! Character classes and small string helpers shared by every stage.

use vstd::prelude::*;
use vstd::std_specs::iter::IteratorSpec;

verus! {

pub open spec fn is_lower(c: char) -> bool {
    'a' <= c <= 'z'
}

pub open spec fn is_upper(c: char) -> bool {
    'A' <= c <= 'Z'
}

pub open spec fn is_digit(c: char) -> bool {
    '0' <= c <= '9'
}

/// A character that may stand inside a name, before folding.
pub open spec fn is_name_char(c: char) -> bool {
    is_lower(c) || is_upper(c) || is_digit(c) || c == '_' || c == '-'
}

/// A character that may open a name, before folding.
pub open spec fn is_name_start(c: char) -> bool {
    is_lower(c) || is_upper(c)
}

/// Upper case letters become lower case, `-` becomes `_`.
pub open spec fn fold_char(c: char) -> char {
    if is_upper(c) {
        ((c as int) + 32) as char
    } else if c == '-' {
        '_'
    } else {
        c
    }
}

/// A character of a built name: lower case, digit or `_`.
pub open spec fn is_folded_char(c: char) -> bool {
    is_lower(c) || is_digit(c) || c == '_'
}

/// Unicode `White_Space`, the set that `char::is_whitespace` tests.
pub open spec fn is_space(c: char) -> bool {
    ('\u{9}' <= c <= '\u{d}') || c == ' ' || c == '\u{85}' || c == '\u{a0}' || c == '\u{1680}'
        || ('\u{2000}' <= c <= '\u{200a}') || c == '\u{2028}' || c == '\u{2029}'
        || c == '\u{202f}' || c == '\u{205f}' || c == '\u{3000}'
}

pub fn is_whitespace(c: char) -> (r: bool)
    ensures
        r == is_space(c),
{
    ('\u{9}' <= c && c <= '\u{d}') || c == ' ' || c == '\u{85}' || c == '\u{a0}' || c == '\u{1680}'
        || ('\u{2000}' <= c && c <= '\u{200a}') || c == '\u{2028}' || c == '\u{2029}'
        || c == '\u{202f}' || c == '\u{205f}' || c == '\u{3000}'
}

/// Folds a name character; any other character is handed back as the error.
pub fn validate_char(c: char) -> (r: Result<char, char>)
    ensures
        is_name_char(c) ==> r == Ok::<char, char>(fold_char(c)),
        !is_name_char(c) ==> r == Err::<char, char>(c),
        is_name_char(c) ==> is_folded_char(fold_char(c)),
{
    if 'a' <= c && c <= 'z' || '0' <= c && c <= '9' || c == '_' {
        Ok(c)
    } else if 'A' <= c && c <= 'Z' {
        let l = ((c as u8) + 32) as char;
        assert(l == fold_char(c));
        Ok(l)
    } else if c == '-' {
        Ok('_')
    } else {
        Err(c)
    }
}

/// Relies on `String::push`: appends one character.
#[verifier::external_body]
pub(crate) fn push_char(s: &mut String, c: char)
    ensures
        final(s)@ == old(s)@.push(c),
{
    s.push(c)
}

/// The characters of `s`, in order.
pub fn chars_of(s: &str) -> (r: Vec<char>)
    ensures
        r@ == s@,
{
    broadcast use vstd::string::group_string_axioms;

    let mut it = s.chars();
    let mut out: Vec<char> = Vec::new();
    loop
        invariant
            out@ + it.remaining() == s@,
            it.decrease() is Some,
        decreases it.decrease()->0,
    {
        match it.next() {
            Some(c) => {
                out.push(c);
            },
            None => {
                assert(out@ =~= s@);
                return out;
            },
        }
    }
}

/// The string made of the characters of `cs`.
pub fn string_of(cs: &[char]) -> (r: String)
    ensures
        r@ == cs@,
{
    let mut out = String::new();
    let mut i: usize = 0;
    while i < cs.len()
        invariant
            i <= cs@.len(),
            out@ == cs@.subrange(0, i as int),
        decreases cs@.len() - i,
    {
        push_char(&mut out, cs[i]);
        i += 1;
        assert(out@ =~= cs@.subrange(0, i as int));
    }
    assert(out@ =~= cs@);
    out
}

/// A citation of raw text in an error: at most 24 characters, the last three
/// of them dots when the text was cut.
pub open spec fn shortened(s: Seq<char>) -> Seq<char> {
    if s.len() <= 24 {
        s
    } else {
        s.subrange(0, 21) + seq!['.', '.', '.']
    }
}

pub fn shorten(line: &str) -> (r: String)
    ensures
        r@ == shortened(line@),
{
    let cs = chars_of(line);
    if cs.len() <= 24 {
        return string_of(cs.as_slice());
    }
    let mut out = string_of(&cs.as_slice()[0..21]);
    push_char(&mut out, '.');
    push_char(&mut out, '.');
    push_char(&mut out, '.');
    assert(out@ =~= shortened(line@));
    out
}

/// Decimal digits of `n`, most significant first, without leading zeros.
pub open spec fn decimal(n: nat) -> Seq<char>
    decreases n,
{
    if n < 10 {
        seq![digit_char(n)]
    } else {
        decimal(n / 10).push(digit_char(n % 10))
    }
}

pub open spec fn digit_char(d: nat) -> char {
    ((d as int) + 48) as char
}

pub fn decimal_string(n: usize) -> (r: String)
    ensures
        r@ == decimal(n as nat),
{
    let mut digits: Vec<char> = Vec::new();
    let mut m: usize = n;
    while m >= 10
        invariant
            decimal(n as nat) == decimal(m as nat) + digits@,
        decreases m,
    {
        let d = ((m % 10) as u8 + 48) as char;
        let ghost before = digits@;
        assert(decimal(m as nat) == decimal((m / 10) as nat).push(d));
        digits.insert(0, d);
        assert(decimal((m / 10) as nat).push(d) + before =~= decimal((m / 10) as nat) + digits@);
        m = m / 10;
    }
    let d = (m as u8 + 48) as char;
    digits.insert(0, d);
    assert(digits@ =~= decimal(n as nat));
    string_of(digits.as_slice())
}

} // verus!
