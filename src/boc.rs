//! Base64 transport of serialized bags of cells.
//!
//! Only the byte side of a bag of cells is handled here: reading cells out of
//! the bytes, and writing cells into bytes, needs the `ever_block` codec,
//! which cannot be had in this build.
use vstd::prelude::*;
use crate::errors::{is_plain, ClientError, ClientResult, ErrorCode};

verus! {

/// The character of the standard base64 alphabet for a 6-bit value.
pub open spec fn base64_digit(v: u8) -> char {
    if v < 26 {
        (65 + v) as char
    } else if v < 52 {
        (97 + (v - 26)) as char
    } else if v < 62 {
        (48 + (v - 52)) as char
    } else if v == 62 {
        '+'
    } else {
        '/'
    }
}

/// The standard padded base64 text of a byte string: each group of three
/// bytes gives four characters of six bits each; a last group of one or two
/// bytes is padded with `=`.
pub open spec fn base64_of(b: Seq<u8>) -> Seq<char>
    decreases b.len(),
{
    if b.len() == 0 {
        Seq::empty()
    } else if b.len() == 1 {
        seq![base64_digit(b[0] >> 2u8), base64_digit((b[0] & 3u8) << 4u8), '=', '=']
    } else if b.len() == 2 {
        seq![
            base64_digit(b[0] >> 2u8),
            base64_digit(((b[0] & 3u8) << 4u8) | (b[1] >> 4u8)),
            base64_digit((b[1] & 15u8) << 2u8),
            '=',
        ]
    } else {
        seq![
            base64_digit(b[0] >> 2u8),
            base64_digit(((b[0] & 3u8) << 4u8) | (b[1] >> 4u8)),
            base64_digit(((b[1] & 15u8) << 2u8) | (b[2] >> 6u8)),
            base64_digit(b[2] & 63u8),
        ] + base64_of(b.skip(3))
    }
}

/// The bytes that standard padded base64 text stands for, if it is valid.
pub uninterp spec fn base64_decoded(s: Seq<char>) -> Option<Seq<u8>>;

/// Relies on base64's `encode`: the standard padded base64 text of `bytes`.
#[verifier::external_body]
fn b64_encode(bytes: &[u8]) -> (r: String)
    ensures
        r@ == base64_of(bytes@),
{
    base64::encode(bytes)
}

/// Relies on base64's `decode`: the bytes of standard padded base64 text,
/// or the rendering of its `DecodeError`. Text that `encode` wrote decodes
/// to the bytes it was written from.
#[verifier::external_body]
fn b64_decode(text: &str) -> (r: Result<Vec<u8>, String>)
    ensures
        r is Ok <==> base64_decoded(text@) is Some,
        r is Ok ==> r->Ok_0@ == base64_decoded(text@)->0,
        forall|v: Seq<u8>| #[trigger] base64_of(v) == text@ ==> r is Ok && r->Ok_0@ == v,
{
    match base64::decode(text) {
        Ok(v) => Ok(v),
        Err(e) => Err(e.to_string()),
    }
}

/// The message of an invalid-BOC error for a bag named `name` whose base64
/// text did not decode, `cause` being the decoder's account of why.
pub open spec fn decode_error_message(name: Seq<char>, cause: Seq<char>) -> Seq<char> {
    "Invalid BOC: error decode "@ + name + " BOC base64: "@ + cause
}

/// The base64 text of serialized bag-of-cells bytes.
pub fn boc_bytes_to_base64(bytes: &[u8]) -> (r: String)
    ensures
        r@ == base64_of(bytes@),
{
    b64_encode(bytes)
}

/// The bytes of a bag of cells named `name`, given as base64 text; text
/// that is not base64 gives an invalid-BOC error that names the bag.
pub fn boc_bytes_from_base64(b64: &str, name: &str) -> (r: ClientResult<Vec<u8>>)
    ensures
        r is Ok <==> base64_decoded(b64@) is Some,
        r is Ok ==> r->Ok_0@ == base64_decoded(b64@)->0,
        r is Err ==> exists|t: Seq<char>|
            is_plain(
                r->Err_0,
                ErrorCode::InvalidBoc.spec_value(),
                #[trigger] decode_error_message(name@, t),
            ),

{
    match b64_decode(b64) {
        Ok(v) => Ok(v),
        Err(e) => {
            let mut m = String::from_str("Invalid BOC: error decode ");
            m.append(name);
            m.append(" BOC base64: ");
            m.append(e.as_str());
            assert(m@ =~= decode_error_message(name@, e@));
            Err(ClientError::with_code_message(ErrorCode::InvalidBoc.value(), m))
        },
    }
}

} // verus!
