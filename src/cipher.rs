//! Parameter rules of the symmetric cipher: mode names, key and
//! initialization-vector lengths.
use vstd::prelude::*;
use crate::errors::{mode_name, CipherMode, ClientResult, Error, ErrorCode};
use crate::text::decimal;

verus! {

/// The block length of the underlying block cipher, in bytes; also the
/// length of an initialization vector.
pub const BLOCK_LEN: usize = 16;

/// The key lengths that the underlying block cipher accepts.
pub open spec fn key_len_ok(n: nat) -> bool {
    n == 16 || n == 24 || n == 32
}

/// The mode whose name is `s`, if any.
pub open spec fn mode_of_name(s: Seq<char>) -> Option<CipherMode> {
    if s == "CBC"@ {
        Some(CipherMode::CBC)
    } else if s == "CFB"@ {
        Some(CipherMode::CFB)
    } else if s == "CTR"@ {
        Some(CipherMode::CTR)
    } else if s == "ECB"@ {
        Some(CipherMode::ECB)
    } else if s == "OFB"@ {
        Some(CipherMode::OFB)
    } else {
        None
    }
}

/// The mode named by `name`; an unknown name is refused.
pub fn parse_mode(name: &str) -> (r: ClientResult<CipherMode>)
    ensures
        mode_of_name(name@) is Some <==> r is Ok,
        r is Ok ==> r->Ok_0 == mode_of_name(name@)->0,
        r is Err ==> r->Err_0.code == ErrorCode::UnsupportedCipherMode.spec_value()
            && r->Err_0.message@ == "Unsupported cipher mode: "@ + name@,
{
    let s = String::from_str(name);
    if s.eq(&String::from_str("CBC")) {
        Ok(CipherMode::CBC)
    } else if s.eq(&String::from_str("CFB")) {
        Ok(CipherMode::CFB)
    } else if s.eq(&String::from_str("CTR")) {
        Ok(CipherMode::CTR)
    } else if s.eq(&String::from_str("ECB")) {
        Ok(CipherMode::ECB)
    } else if s.eq(&String::from_str("OFB")) {
        Ok(CipherMode::OFB)
    } else {
        Err(Error::unsupported_cipher_mode(name))
    }
}

/// Whether the mode chains blocks through an initialization vector.
pub open spec fn needs_iv(m: CipherMode) -> bool {
    m != CipherMode::ECB
}

/// Checks a key length, a mode and an optional initialization vector
/// before encryption or decryption. A mode other than ECB needs a vector of
/// one block; the key must have one of the block cipher's key lengths.
pub fn check_params(key_len: usize, mode: CipherMode, iv: Option<&[u8]>) -> (r: ClientResult<()>)
    ensures
        r is Ok <==> key_len_ok(key_len as nat) && (needs_iv(mode) ==> iv is Some && iv->0@.len()
            == BLOCK_LEN),
        needs_iv(mode) && iv is None ==> r is Err && r->Err_0.code
            == ErrorCode::IvRequired.spec_value() && r->Err_0.message@
            == "initialization vector is required for "@ + mode_name(mode) + " cipher mode"@,
        needs_iv(mode) && iv is Some && iv->0@.len() != BLOCK_LEN ==> r is Err && r->Err_0.code
            == ErrorCode::InvalidIvSize.spec_value() && r->Err_0.message@ == "Invalid IV size "@
            + decimal(iv->0@.len()) + ". Expected "@ + decimal(BLOCK_LEN as nat) + "."@,
        (!needs_iv(mode) || (iv is Some && iv->0@.len() == BLOCK_LEN)) && !key_len_ok(
            key_len as nat,
        ) ==> r is Err && r->Err_0.code == ErrorCode::CannotCreateCipher.spec_value(),
{
    if mode != CipherMode::ECB {
        match iv {
            None => {
                return Err(Error::iv_required(&mode));
            },
            Some(v) => {
                if v.len() != BLOCK_LEN {
                    return Err(Error::invalid_iv_size(v.len(), BLOCK_LEN));
                }
            },
        }
    }
    if key_len != 16 && key_len != 24 && key_len != 32 {
        return Err(Error::cannot_create_cipher("key length is not 16, 24 or 32 bytes"));
    }
    Ok(())
}

/// Parses the mode name and checks the parameters, as a request to
/// encrypt or decrypt is checked.
pub fn check_request(key_len: usize, mode: &str, iv: Option<&[u8]>) -> (r: ClientResult<CipherMode>)
    ensures
        r is Ok <==> mode_of_name(mode@) is Some && key_len_ok(key_len as nat) && (needs_iv(
            mode_of_name(mode@)->0,
        ) ==> iv is Some && iv->0@.len() == BLOCK_LEN),
        r is Ok ==> r->Ok_0 == mode_of_name(mode@)->0,
        mode_of_name(mode@) is None ==> r is Err && r->Err_0.code
            == ErrorCode::UnsupportedCipherMode.spec_value(),
        mode_of_name(mode@) is Some && needs_iv(mode_of_name(mode@)->0) && iv is None ==> r is Err
            && r->Err_0.code == ErrorCode::IvRequired.spec_value(),
{
    let m = parse_mode(mode)?;
    check_params(key_len, m, iv)?;
    Ok(m)
}

} // verus!
