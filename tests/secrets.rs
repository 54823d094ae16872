use ever_keys::boc::{boc_bytes_from_base64, boc_bytes_to_base64};
use ever_keys::hash::{hmac_sha512, pbkdf2_hmac_sha512, sha256};
use ever_keys::secret::{key256, key512, key_from_slice, SecretBufConst};

fn hex(b: &[u8]) -> String {
    b.iter().map(|x| format!("{:02x}", x)).collect()
}

#[test]
fn key_from_slice_checks_length() {
    let k = key256(&[7u8; 32]).unwrap();
    assert_eq!(k.as_bytes(), &[7u8; 32][..]);
    let e = key256(&[7u8; 31]).err().unwrap();
    assert_eq!(e.code, 109);
    assert_eq!(e.message, "Invalid key size 31. Expected 32.");
    assert!(key512(&[1u8; 64]).is_ok());
    assert!(key512(&[1u8; 32]).is_err());
    let k: SecretBufConst<3> = key_from_slice(&[1, 2, 3]).unwrap();
    assert_eq!(k.0, [1, 2, 3]);
}

#[test]
fn wipe_zeroes_and_duplicate_copies() {
    let mut k = SecretBufConst::from([9u8; 4]);
    let d = k.duplicate();
    k.wipe();
    assert_eq!(k.0, [0u8; 4]);
    assert_eq!(d.0, [9u8; 4]);
    assert_eq!(SecretBufConst::<2>::default().0, [0, 0]);
}

#[test]
fn sha256_known_value() {
    assert_eq!(hex(&sha256(b"abc")), "ba7816bf8f01cfea414140de5dae2223b00361a396177a9cb410ff61f20015ad");
}

#[test]
fn hmac_sha512_known_value() {
    let t = hmac_sha512(b"key", b"The quick brown fox jumps over the lazy dog");
    assert_eq!(
        hex(&t),
        "b42af09057bac1e2d41708e48a902e09b5ff7f12ab428a4fe86653c73dd248fb82f948a549f7b791a5b41915ee4d1ec3935357e4e2317250d0372afa2ebeeb3a"
    );
}

#[test]
fn pbkdf2_one_round_is_one_tag() {
    let mut salt = b"salt".to_vec();
    let r = pbkdf2_hmac_sha512(b"pw", &salt, 1);
    salt.extend_from_slice(&[0, 0, 0, 1]);
    assert_eq!(r, hmac_sha512(b"pw", &salt));
}

#[test]
fn base64_round_trip_and_errors() {
    assert_eq!(boc_bytes_to_base64(b"hello"), "aGVsbG8=");
    assert_eq!(boc_bytes_from_base64("aGVsbG8=", "message").unwrap(), b"hello".to_vec());
    let e = boc_bytes_from_base64("@@@", "message").unwrap_err();
    assert_eq!(e.code, 201);
    assert!(e.message.starts_with("Invalid BOC: error decode message BOC base64: "));
}
