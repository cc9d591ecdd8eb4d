//! Percent-encoding of URL query values, specified byte for byte.

use vstd::prelude::*;
use vstd::string::StringSliceAdditionalSpecFns;

use crate::text::char_of_digit;

verus! {

/// Bytes that percent-encoding passes through unchanged: ASCII
/// alphanumerics and `-`, `.`, `_`, `~`.
pub open spec fn keep_byte(b: u8) -> bool {
    ||| 48 <= b && b <= 57
    ||| 65 <= b && b <= 90
    ||| 97 <= b && b <= 122
    ||| b == 45
    ||| b == 46
    ||| b == 95
    ||| b == 126
}

/// The uppercase hex character of a value below sixteen.
pub open spec fn hex_upper(d: u8) -> char {
    if d < 10 {
        char_of_digit(d as int)
    } else {
        ((65 + (d - 10)) as u8) as char
    }
}

/// How one byte is encoded: kept as itself, or `%` plus two uppercase hex
/// digits.
pub open spec fn enc_byte(b: u8) -> Seq<char> {
    if keep_byte(b) {
        seq![b as char]
    } else {
        seq!['%', hex_upper(b / 16), hex_upper(b % 16)]
    }
}

/// The percent-encoding of a byte string.
pub open spec fn percent_encode(bs: Seq<u8>) -> Seq<char>
    decreases bs.len(),
{
    if bs.len() == 0 {
        Seq::<char>::empty()
    } else {
        enc_byte(bs.first()) + percent_encode(bs.drop_first())
    }
}

/// Relies on urlencoding's `encode`: percent-encodes every byte of the
/// string's UTF-8 form except ASCII alphanumerics and `-`, `.`, `_`, `~`,
/// with uppercase hex digits.
#[verifier::external_body]
pub fn url_encode(s: &str) -> (r: String)
    ensures
        r@ == percent_encode(s.spec_bytes()),
{
    urlencoding::encode(s).into_owned()
}

} // verus!
