//! Identifier classes: which identifiers are placeholders, waiting for a
//! value to be assigned, and which are resolved.

use vstd::prelude::*;

verus! {

/// An ASCII decimal digit.
pub open spec fn is_digit(c: char) -> bool {
    '0' <= c <= '9'
}

/// `s` consists of exactly `n` ASCII decimal digits.
pub open spec fn is_digit_string(s: Seq<char>, n: nat) -> bool {
    &&& s.len() == n
    &&& forall|i: int| 0 <= i < s.len() ==> is_digit(#[trigger] s[i])
}

/// A placeholder identifier: empty, or six digits (`YYMMDD`).
pub open spec fn is_placeholder(s: Seq<char>) -> bool {
    s.len() == 0 || is_digit_string(s, 6)
}

/// A resolved identifier: ten digits (`YYMMDDHHmm`).
pub open spec fn is_resolved(s: Seq<char>) -> bool {
    is_digit_string(s, 10)
}

/// Tells whether `s` is made of exactly `n` ASCII decimal digits.
pub fn has_digits(s: &str, n: usize) -> (b: bool)
    ensures
        b == is_digit_string(s@, n as nat),
{
    broadcast use vstd::string::is_ascii_spec_bytes;

    if !s.is_ascii() {
        proof {
            let i = choose|i: int| 0 <= i < s@.len() && !('\0' <= #[trigger] s@[i] <= '\u{7f}');
            assert(!is_digit(s@[i]));
        }
        return false;
    }
    let bytes = s.as_bytes();
    if bytes.len() != n {
        return false;
    }
    let mut i: usize = 0;
    while i < n
        invariant
            i <= n,
            bytes@.len() == n,
            s@.len() == n,
            forall|k: int| 0 <= k < s@.len() ==> s@[k] as u8 == #[trigger] bytes@[k],
            forall|k: int| 0 <= k < s@.len() ==> '\0' <= #[trigger] s@[k] <= '\u{7f}',
            forall|k: int| 0 <= k < i ==> is_digit(#[trigger] s@[k]),
        decreases n - i,
    {
        let b: u8 = bytes[i];
        if b < 48 || b > 57 {
            assert(!is_digit(s@[i as int]));
            return false;
        }
        assert(is_digit(s@[i as int]));
        i += 1;
    }
    true
}

/// Tells whether an identifier is a placeholder, that is, whether its record
/// is waiting for an identifier to be assigned.
pub fn is_to_autoid(s: &str) -> (b: bool)
    ensures
        b == is_placeholder(s@),
{
    if s.is_empty() {
        return true;
    }
    has_digits(s, 6)
}

} // verus!
