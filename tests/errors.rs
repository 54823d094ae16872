use ever_keys::cipher::{check_params, check_request, parse_mode};
use ever_keys::errors::{strip_secret, CipherMode, ClientError, DataValue, Error, ErrorCode};

fn entry_text(e: &ClientError, key: &str) -> Option<String> {
    for d in &e.data.entries {
        if d.key == key {
            if let DataValue::Text(t) = &d.value {
                return Some(t.clone());
            }
        }
    }
    None
}

fn entry_number(e: &ClientError, key: &str) -> Option<usize> {
    for d in &e.data.entries {
        if d.key == key {
            if let DataValue::Number(n) = &d.value {
                return Some(*n);
            }
        }
    }
    None
}

#[test]
fn error_code_values() {
    assert_eq!(ErrorCode::InvalidPublicKey.value(), 100);
    assert_eq!(ErrorCode::Bip39InvalidEntropy.value(), 113);
    assert_eq!(ErrorCode::IvRequired.value(), 129);
    assert_eq!(ErrorCode::InvalidBoc.value(), 201);
    assert_eq!(ErrorCode::PubKeyNotSupported.value(), 316);
}

#[test]
fn with_code_message_has_core_version() {
    let e = ClientError::with_code_message(7, "boom".to_string());
    assert_eq!(e.code, 7);
    assert_eq!(e.message, "boom");
    assert_eq!(e.data.entries.len(), 1);
    assert_eq!(entry_text(&e, "core_version"), Some("gate".to_string()));
}

#[test]
fn strip_secret_short_and_long() {
    assert_eq!(strip_secret("abc"), "\"abc\"");
    assert_eq!(strip_secret("12345678"), "\"12345678\"");
    assert_eq!(strip_secret("0123456789abcdef"), "\"01234567...\" (16 chars)");
    assert_eq!(strip_secret(""), "\"\"");
}

#[test]
fn invalid_key_size_lists_sizes() {
    let e = Error::invalid_key_size(5, &[32, 64]);
    assert_eq!(e.code, 109);
    assert_eq!(e.message, "Invalid key size 5. Expected 32 or 64.");
    let e = Error::invalid_nonce_size(3, &[24]);
    assert_eq!(e.code, 134);
    assert_eq!(e.message, "Invalid nonce size 3. Expected 24.");
}

#[test]
fn display_errors_render_their_cause() {
    let e = Error::invalid_boc("bad header");
    assert_eq!(e.code, 201);
    assert_eq!(e.message, "Invalid BOC: bad header");
    let e = Error::serialization_error(42, "message");
    assert_eq!(e.code, 202);
    assert_eq!(e.message, "Cannot serialize message: 42");
    let e = Error::invalid_factorize_challenge(&"ab".to_string(), "odd");
    assert_eq!(e.message, "Invalid factorize challenge: odd\r\nchallenge: [ab]");
    let e = Error::bip32_invalid_derive_path("m/x");
    assert_eq!(e.code, 116);
    assert_eq!(e.message, "Invalid bip32 derive path: m/x");
}

#[test]
fn secret_key_errors_are_redacted() {
    let e = Error::invalid_secret_key("bad", &"0123456789abcdef".to_string());
    assert_eq!(e.code, 101);
    assert_eq!(e.message, "Invalid secret key [\"01234567...\" (16 chars)]: bad");
    let e = Error::invalid_public_key("bad", &"0123456789abcdef".to_string());
    assert_eq!(e.message, "Invalid public key [0123456789abcdef]: bad");
}

#[test]
fn numeric_errors() {
    assert_eq!(Error::bip39_invalid_word_count(13).message, "Invalid mnemonic word count: 13");
    assert_eq!(Error::bip39_invalid_dictionary(9).code, 117);
    assert_eq!(Error::signing_box_not_registered(1234).message, "Signing box is not registered. ID 1234");
    assert_eq!(Error::encryption_box_not_registered(0).code, 123);
    assert_eq!(Error::crypto_box_not_registered(5).code, 130);
    assert_eq!(Error::invalid_iv_size(8, 16).message, "Invalid IV size 8. Expected 16.");
    assert_eq!(Error::mnemonic_generation_failed().message, "Mnemonic generation failed");
    assert_eq!(Error::missing_source_boc().code, 204);
}

#[test]
fn cache_errors_carry_data() {
    let e = Error::insufficient_cache_size(10, 20);
    assert_eq!(e.code, 205);
    assert_eq!(entry_number(&e, "max_cache_size"), Some(10));
    assert_eq!(entry_number(&e, "boc_size"), Some(20));
    assert_eq!(entry_text(&e, "core_version"), Some("gate".to_string()));
    let e = Error::boc_ref_not_found("*abc");
    assert_eq!(e.code, 206);
    assert_eq!(entry_text(&e, "boc_ref"), Some("*abc".to_string()));
    let e = Error::invalid_boc_ref("not hex", "*zz");
    assert_eq!(e.code, 207);
    assert_eq!(e.message, "Invalid BOC reference: not hex");
    assert_eq!(entry_text(&e, "boc_ref"), Some("*zz".to_string()));
}

#[test]
fn iv_required_uses_its_own_code() {
    let e = Error::iv_required(&CipherMode::CBC);
    assert_eq!(e.code, 129);
    assert_eq!(e.message, "initialization vector is required for CBC cipher mode");
}

#[test]
fn cipher_modes_parse() {
    assert_eq!(parse_mode("CBC").unwrap(), CipherMode::CBC);
    assert_eq!(parse_mode("OFB").unwrap(), CipherMode::OFB);
    let e = parse_mode("XTS").unwrap_err();
    assert_eq!(e.code, 125);
    assert_eq!(e.message, "Unsupported cipher mode: XTS");
}

#[test]
fn cipher_iv_rules() {
    let iv = [0u8; 16];
    for m in [CipherMode::CBC, CipherMode::CFB, CipherMode::CTR, CipherMode::OFB] {
        assert_eq!(check_params(32, m, None).unwrap_err().code, 129);
        assert!(check_params(32, m, Some(&iv[..])).is_ok());
        assert_eq!(check_params(32, m, Some(&iv[..8])).unwrap_err().code, 124);
    }
    assert!(check_params(16, CipherMode::ECB, None).is_ok());
    assert_eq!(check_params(15, CipherMode::ECB, None).unwrap_err().code, 126);
    assert_eq!(check_request(24, "CTR", None).unwrap_err().code, 129);
    assert_eq!(check_request(24, "GCM", None).unwrap_err().code, 125);
    assert_eq!(check_request(24, "ECB", None).unwrap(), CipherMode::ECB);
}
