//! What this library takes from outside it: the base64 codec of the
//! `base64` crate, and two functions of std. Nothing in this file is
//! proved: Verus takes the contracts below as given.

use vstd::prelude::*;
use vstd::utf8::{decode_utf8, encode_utf8, valid_utf8};

verus! {

/// The text that `base64::encode` makes of `data`.
pub uninterp spec fn base64_encoded(data: Seq<u8>) -> Seq<char>;

/// The bytes that `base64::decode` makes of `text`; `None` where it rejects
/// the text.
pub uninterp spec fn base64_decoded(text: Seq<char>) -> Option<Seq<u8>>;

/// The text that `String::from_utf8_lossy` makes of `data`.
pub uninterp spec fn utf8_lossy(data: Seq<u8>) -> Seq<char>;

/// The standard alphabet of base64, and the padding sign.
pub open spec fn is_base64_char(c: char) -> bool {
    ||| 'A' <= c <= 'Z'
    ||| 'a' <= c <= 'z'
    ||| '0' <= c <= '9'
    ||| c == '+'
    ||| c == '/'
    ||| c == '='
}

/// The length of the padded base64 text for `n` bytes: four characters for
/// every three bytes begun.
pub open spec fn encoded_len(n: nat) -> nat {
    (n + 2) / 3 * 4
}

/// What is taken as given of the text that `base64::encode` makes of
/// `data`: its length, its alphabet, and that `base64::decode` gives `data`
/// back for it.
pub open spec fn encodes(text: Seq<char>, data: Seq<u8>) -> bool {
    &&& text == base64_encoded(data)
    &&& text.len() == encoded_len(data.len())
    &&& forall|i: int| 0 <= i < text.len() ==> is_base64_char(#[trigger] text[i])
    &&& base64_decoded(text) == Some(data)
}

/// The text in which `data` is read: for valid UTF-8 the characters it
/// encodes, else what `String::from_utf8_lossy` makes of it.
pub open spec fn text_of(data: Seq<u8>) -> Seq<char> {
    if valid_utf8(data) {
        decode_utf8(data)
    } else {
        utf8_lossy(data)
    }
}

/// `base64::DecodeError`, the reason for which `base64::decode` rejects a
/// text. Nothing is read from it.
#[verifier::external_type_specification]
#[verifier::external_body]
pub struct ExDecodeError(base64::DecodeError);

/// `base64::encode`, which encodes with the standard alphabet and pads with
/// `=`. The contract claims that the result is a function of `data`, is
/// `encoded_len` characters long, holds only characters of the alphabet and
/// the padding sign, and is decoded to `data` again by `base64::decode`.
/// The call panics where the length of the result overflows; `requires`
/// leaves those inputs out, and with them every input whose result
/// `base64::decode` would not take.
#[verifier::external_body]
pub(crate) fn encode(data: &[u8]) -> (text: String)
    requires
        data@.len() <= usize::MAX / 8,
    ensures
        text@ == base64_encoded(data@),
        encodes(text@, data@),
{
    base64::encode(data)
}

/// `base64::decode`, which decodes with the standard alphabet. The contract
/// claims only that the outcome is a function of `text`. The call panics
/// where its size estimate overflows; `requires` leaves those inputs out.
#[verifier::external_body]
pub(crate) fn decode(text: &str) -> (r: Result<Vec<u8>, base64::DecodeError>)
    requires
        encode_utf8(text@).len() <= usize::MAX / 4,
    ensures
        match r {
            Ok(data) => base64_decoded(text@) == Some(data@),
            Err(_) => base64_decoded(text@) is None,
        },
{
    base64::decode(text)
}

/// `String::from_utf8_lossy`. The contract claims that valid UTF-8 is read
/// as the characters it encodes, and that the result for other bytes is a
/// function of them.
#[verifier::external_body]
pub(crate) fn lossy(data: &[u8]) -> (text: String)
    ensures
        text@ == text_of(data@),
        !valid_utf8(data@) ==> text@ == utf8_lossy(data@),
{
    String::from_utf8_lossy(data).into_owned()
}

/// `String::push`. The contract claims that the character is appended to
/// the end of the string.
pub assume_specification[ String::push ](s: &mut String, c: char)
    ensures
        final(s)@ == old(s)@.push(c),
;

} // verus!
