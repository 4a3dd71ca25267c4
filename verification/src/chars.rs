//! The byte classes of the HTTP/1.x grammar.

use vstd::prelude::*;

verus! {

/// Space.
pub const SP: u8 = 32;

/// Horizontal tab.
pub const HTAB: u8 = 9;

/// `:`
pub const COLON: u8 = 58;

/// `,`
pub const COMMA: u8 = 44;

/// `;`
pub const SEMICOLON: u8 = 59;

/// `/`
pub const SLASH: u8 = 47;

/// `?`
pub const QUESTION: u8 = 63;

/// `*`
pub const STAR: u8 = 42;

/// `.`
pub const DOT: u8 = 46;

/// `0`
pub const ZERO: u8 = 48;

/// A decimal digit.
pub open spec fn spec_is_digit(b: u8) -> bool {
    48 <= b <= 57
}

/// A decimal digit.
#[verifier::when_used_as_spec(spec_is_digit)]
pub fn is_digit(b: u8) -> (r: bool)
    ensures
        r == spec_is_digit(b),
{
    48 <= b && b <= 57
}

/// An ASCII letter.
pub open spec fn spec_is_alpha(b: u8) -> bool {
    65 <= b <= 90 || 97 <= b <= 122
}

/// An ASCII letter.
#[verifier::when_used_as_spec(spec_is_alpha)]
pub fn is_alpha(b: u8) -> (r: bool)
    ensures
        r == spec_is_alpha(b),
{
    (65 <= b && b <= 90) || (97 <= b && b <= 122)
}

/// A byte that may stand in a token: a letter, a digit or one of
/// ``!#$%&'*+-.^_`|~``.
pub open spec fn spec_is_tchar(b: u8) -> bool {
    spec_is_digit(b) || spec_is_alpha(b) || b == 33 || (35 <= b <= 39) || b == 42 || b == 43
        || b == 45 || b == 46 || b == 94 || b == 95 || b == 96 || b == 124 || b == 126
}

/// A byte that may stand in a token.
#[verifier::when_used_as_spec(spec_is_tchar)]
pub fn is_tchar(b: u8) -> (r: bool)
    ensures
        r == spec_is_tchar(b),
{
    is_digit(b) || is_alpha(b) || b == 33 || (35 <= b && b <= 39) || b == 42 || b == 43 || b == 45
        || b == 46 || b == 94 || b == 95 || b == 96 || b == 124 || b == 126
}

/// Optional whitespace: a space or a horizontal tab.
pub open spec fn spec_is_ws(b: u8) -> bool {
    b == SP || b == HTAB
}

/// Optional whitespace: a space or a horizontal tab.
#[verifier::when_used_as_spec(spec_is_ws)]
pub fn is_ws(b: u8) -> (r: bool)
    ensures
        r == spec_is_ws(b),
{
    b == SP || b == HTAB
}

/// A visible ASCII byte, the alphabet of a request target.
pub open spec fn spec_is_vchar(b: u8) -> bool {
    33 <= b <= 126
}

/// A visible ASCII byte.
#[verifier::when_used_as_spec(spec_is_vchar)]
pub fn is_vchar(b: u8) -> (r: bool)
    ensures
        r == spec_is_vchar(b),
{
    33 <= b && b <= 126
}

/// A byte of field content other than whitespace: visible ASCII, or any
/// byte from 128 up.
pub open spec fn spec_is_field_byte(b: u8) -> bool {
    spec_is_vchar(b) || b >= 128
}

/// A byte of field content other than whitespace.
#[verifier::when_used_as_spec(spec_is_field_byte)]
pub fn is_field_byte(b: u8) -> (r: bool)
    ensures
        r == spec_is_field_byte(b),
{
    is_vchar(b) || b >= 128
}

/// A hexadecimal digit.
pub open spec fn spec_is_hex(b: u8) -> bool {
    spec_is_digit(b) || 65 <= b <= 70 || 97 <= b <= 102
}

/// A hexadecimal digit.
#[verifier::when_used_as_spec(spec_is_hex)]
pub fn is_hex(b: u8) -> (r: bool)
    ensures
        r == spec_is_hex(b),
{
    is_digit(b) || (65 <= b && b <= 70) || (97 <= b && b <= 102)
}

/// The value of a hexadecimal digit; 0 for any other byte.
pub open spec fn spec_hex_value(b: u8) -> u8 {
    if spec_is_digit(b) {
        (b - 48) as u8
    } else if 65 <= b <= 70 {
        (b - 55) as u8
    } else if 97 <= b <= 102 {
        (b - 87) as u8
    } else {
        0
    }
}

/// The value of a hexadecimal digit; 0 for any other byte.
#[verifier::when_used_as_spec(spec_hex_value)]
pub fn hex_value(b: u8) -> (r: u8)
    ensures
        r == spec_hex_value(b),
        r < 16,
{
    if is_digit(b) {
        b - 48
    } else if 65 <= b && b <= 70 {
        b - 55
    } else if 97 <= b && b <= 102 {
        b - 87
    } else {
        0
    }
}

/// The upper-case hexadecimal digit of a value below 16.
pub open spec fn spec_hex_digit(v: u8) -> u8 {
    if v < 10 {
        (v + 48) as u8
    } else {
        (v + 55) as u8
    }
}

/// The upper-case hexadecimal digit of a value below 16.
#[verifier::when_used_as_spec(spec_hex_digit)]
pub fn hex_digit(v: u8) -> (r: u8)
    requires
        v < 16,
    ensures
        r == spec_hex_digit(v),
{
    if v < 10 {
        v + 48
    } else {
        v + 55
    }
}

/// The byte with an ASCII upper-case letter turned to lower case.
pub open spec fn spec_lower(b: u8) -> u8 {
    if 65 <= b <= 90 {
        (b + 32) as u8
    } else {
        b
    }
}

/// The byte with an ASCII upper-case letter turned to lower case.
#[verifier::when_used_as_spec(spec_lower)]
pub fn lower(b: u8) -> (r: u8)
    ensures
        r == spec_lower(b),
{
    if 65 <= b && b <= 90 {
        b + 32
    } else {
        b
    }
}

/// `s` with every ASCII upper-case letter turned to lower case.
pub open spec fn lower_seq(s: Seq<u8>) -> Seq<u8> {
    Seq::new(s.len(), |i: int| spec_lower(s[i]))
}

/// Every byte of `s` may stand in a token.
pub open spec fn all_tchar(s: Seq<u8>) -> bool {
    forall|i: int| 0 <= i < s.len() ==> spec_is_tchar(#[trigger] s[i])
}

/// `s` is a token: not empty, and made of token bytes.
pub open spec fn is_token(s: Seq<u8>) -> bool {
    s.len() > 0 && all_tchar(s)
}

/// Every byte of `s` is visible ASCII.
pub open spec fn all_vchar(s: Seq<u8>) -> bool {
    forall|i: int| 0 <= i < s.len() ==> spec_is_vchar(#[trigger] s[i])
}

/// `a` and `b` are equal up to the case of ASCII letters.
pub open spec fn eq_ignore_case(a: Seq<u8>, b: Seq<u8>) -> bool {
    lower_seq(a) == lower_seq(b)
}

/// Whether two byte strings are equal.
pub fn bytes_eq(a: &[u8], b: &[u8]) -> (r: bool)
    ensures
        r == (a@ == b@),
{
    if a.len() != b.len() {
        return false;
    }
    let mut i: usize = 0;
    while i < a.len()
        invariant
            i <= a@.len(),
            a@.len() == b@.len(),
            forall|j: int| 0 <= j < i ==> a@[j] == b@[j],
        decreases a@.len() - i,
    {
        if a[i] != b[i] {
            return false;
        }
        i = i + 1;
    }
    assert(a@ =~= b@);
    true
}

/// Whether two byte strings are equal up to the case of ASCII letters.
pub fn bytes_eq_ignore_case(a: &[u8], b: &[u8]) -> (r: bool)
    ensures
        r == eq_ignore_case(a@, b@),
{
    if a.len() != b.len() {
        assert(lower_seq(a@).len() != lower_seq(b@).len());
        return false;
    }
    let mut i: usize = 0;
    while i < a.len()
        invariant
            i <= a@.len(),
            a@.len() == b@.len(),
            forall|j: int| 0 <= j < i ==> spec_lower(a@[j]) == spec_lower(b@[j]),
        decreases a@.len() - i,
    {
        if lower(a[i]) != lower(b[i]) {
            assert(lower_seq(a@)[i as int] != lower_seq(b@)[i as int]);
            return false;
        }
        i = i + 1;
    }
    assert(lower_seq(a@) =~= lower_seq(b@));
    true
}

/// A copy of `s`.
pub fn copy_bytes(s: &[u8]) -> (v: Vec<u8>)
    ensures
        v@ == s@,
{
    let mut v: Vec<u8> = Vec::new();
    let mut i: usize = 0;
    while i < s.len()
        invariant
            i <= s@.len(),
            v@ == s@.take(i as int),
        decreases s@.len() - i,
    {
        v.push(s[i]);
        i = i + 1;
    }
    v
}

/// Appends `s` to `out`.
pub fn append_bytes(out: &mut Vec<u8>, s: &[u8])
    ensures
        final(out)@ == old(out)@ + s@,
{
    let mut i: usize = 0;
    while i < s.len()
        invariant
            i <= s@.len(),
            out@ == old(out)@ + s@.take(i as int),
        decreases s@.len() - i,
    {
        out.push(s[i]);
        i = i + 1;
    }
}

} // verus!
