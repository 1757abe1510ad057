//! The parts of addresses, and how text is written in them.
use vstd::prelude::*;
use vstd::string::*;
use vstd::utf8::{decode_utf8, valid_utf8};

verus! {

/// Whether the byte stands for itself in an address.
pub open spec fn is_unreserved(b: u8) -> bool {
    (48 <= b && b <= 57) || (65 <= b && b <= 90) || (97 <= b && b <= 122) || b == 45 || b == 46 || b
        == 95 || b == 126
}

/// A great hexadecimal digit.
pub open spec fn great_digit(n: int) -> char {
    if n < 10 {
        (48 + n) as char
    } else {
        (55 + n) as char
    }
}

/// How the bytes are written in an address: those that do not stand for themselves
/// as a percent sign and two great hexadecimal digits.
pub open spec fn percent_encoded(bytes: Seq<u8>) -> Seq<char>
    decreases bytes.len(),
{
    if bytes.len() == 0 {
        Seq::empty()
    } else {
        let b = bytes.last();
        percent_encoded(bytes.drop_last()) + (if is_unreserved(b) {
            seq![b as char]
        } else {
            seq!['%', great_digit(b as int / 16), great_digit(b as int % 16)]
        })
    }
}

/// The value of a hexadecimal digit, great or small.
pub open spec fn digit_value(b: u8) -> Option<int> {
    if 48 <= b && b <= 57 {
        Some(b - 48)
    } else if 65 <= b && b <= 70 {
        Some(b - 55)
    } else if 97 <= b && b <= 102 {
        Some(b - 87)
    } else {
        None
    }
}

/// The bytes that are written in an address: a percent sign and two hexadecimal
/// digits stand for one byte, anything else for itself.
pub open spec fn percent_decoded(bytes: Seq<u8>) -> Seq<u8>
    decreases bytes.len(),
{
    if bytes.len() == 0 {
        Seq::empty()
    } else if bytes[0] == 37 && bytes.len() >= 3 && digit_value(bytes[1]) is Some && digit_value(
        bytes[2],
    ) is Some {
        seq![(16 * digit_value(bytes[1])->0 + digit_value(bytes[2])->0) as u8] + percent_decoded(
            bytes.skip(3),
        )
    } else {
        seq![bytes[0]] + percent_decoded(bytes.skip(1))
    }
}

/// `urlencoding::encode`: the text as it is written in an address, every byte of
/// its UTF-8 form percent-encoded except letters, digits and `-`, `_`, `.`, `~`.
#[verifier::external_body]
pub(crate) fn url_encode(s: &str) -> (r: String)
    ensures
        r@ == percent_encoded(s.spec_bytes()),
{
    urlencoding::encode(s).into_owned()
}

/// `urlencoding::decode`: the text that is written in an address, where its bytes
/// are UTF-8; nothing where they are not.
#[verifier::external_body]
pub(crate) fn url_decode(s: &str) -> (r: Option<String>)
    ensures
        match r {
            Some(t) => valid_utf8(percent_decoded(s.spec_bytes())) && t@ == decode_utf8(
                percent_decoded(s.spec_bytes()),
            ),
            None => !valid_utf8(percent_decoded(s.spec_bytes())),
        },
{
    urlencoding::decode(s).ok().map(|t| t.into_owned())
}

} // verus!
