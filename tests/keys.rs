use ever_keys::hdkey::{derive_child, derive_path, master_key, parse_path, ExtendedKey, KeyMaterial, PathStep};
use ever_keys::mnemonic::{
    entropy_to_indices, from_entropy, indices_to_checked_entropy, indices_to_entropy, mnemonic_to_entropy,
    to_seed, validate, Dictionary,
};
use ever_keys::errors::strip_secret;
use ever_keys::registry::{BoxKind, BoxRegistry};
use ever_keys::secret::{key512, SecretBufConst};

fn hex(b: &[u8]) -> String {
    b.iter().map(|x| format!("{:02x}", x)).collect()
}

fn dictionary() -> Dictionary {
    let mut words: Vec<String> = (0..2048).map(|i| format!("w{:04}", i)).collect();
    words[0] = "abandon".to_string();
    words[3] = "about".to_string();
    Dictionary::new(1, words).unwrap()
}

fn abandon_about() -> Vec<String> {
    let mut w = vec!["abandon".to_string(); 11];
    w.push("about".to_string());
    w
}

fn private_bytes(k: &ExtendedKey) -> Vec<u8> {
    match &k.key {
        KeyMaterial::Private(p) => p.0.to_vec(),
        KeyMaterial::Public(_) => panic!("public key"),
    }
}

#[test]
fn entropy_indices_known_values() {
    let e: Vec<u8> = (0..32).collect();
    assert_eq!(
        entropy_to_indices(&e),
        vec![0, 64, 1030, 64, 643, 28, 257, 266, 88, 771, 540, 241, 8, 1096, 610, 1045, 176, 1478, 50, 417, 1422, 116, 963, 1891]
    );
    assert_eq!(
        entropy_to_indices(&[0x7f; 16]),
        vec![1019, 2015, 1790, 2039, 1983, 1533, 2031, 1919, 1019, 2015, 1790, 2040]
    );
    assert_eq!(entropy_to_indices(&[0xff; 20]), vec![2047, 2047, 2047, 2047, 2047, 2047, 2047, 2047, 2047, 2047, 2047, 2047, 2047, 2047, 2035]);
}

#[test]
fn entropy_round_trips_for_every_length() {
    for n in [16usize, 20, 24, 28, 32] {
        let e: Vec<u8> = (0..n).map(|i| (i * 37 + 11) as u8).collect();
        let idx = entropy_to_indices(&e);
        assert_eq!(idx.len() * 32, n * 24);
        assert_eq!(indices_to_entropy(&idx), e);
        assert_eq!(indices_to_checked_entropy(&idx).unwrap(), e);
    }
}

#[test]
fn zero_entropy_gives_abandon_about() {
    let d = dictionary();
    let words = from_entropy(&[0u8; 16], &d).unwrap();
    assert_eq!(words, abandon_about());
    assert_eq!(mnemonic_to_entropy(&words, &d).unwrap(), vec![0u8; 16]);
    assert!(validate(&words, &d).is_ok());
}

#[test]
fn unsupported_entropy_is_refused() {
    let d = dictionary();
    assert_eq!(from_entropy(&[0u8; 15], &d).unwrap_err().code, 113);
    assert_eq!(from_entropy(&[], &d).unwrap_err().code, 113);
}

#[test]
fn broken_phrases_fail_validation() {
    let d = dictionary();
    let mut words = abandon_about();
    words.pop();
    assert_eq!(validate(&words, &d).unwrap_err().code, 118);
    let mut words = abandon_about();
    words[11] = "abandon".to_string();
    assert_eq!(validate(&words, &d).unwrap_err().code, 114);
    let mut words = abandon_about();
    words[4] = "zzz".to_string();
    assert_eq!(validate(&words, &d).unwrap_err().code, 114);
    assert_eq!(validate(&[], &d).unwrap_err().code, 118);
}

#[test]
fn dictionary_rules() {
    let short: Vec<String> = (0..10).map(|i| format!("w{}", i)).collect();
    assert_eq!(Dictionary::new(3, short).err().unwrap().code, 117);
    let mut dup: Vec<String> = (0..2048).map(|i| format!("w{}", i)).collect();
    dup[100] = "w5".to_string();
    assert_eq!(Dictionary::new(3, dup).err().unwrap().code, 117);
}

#[test]
fn seed_matches_reference_vector() {
    let s = to_seed(&abandon_about(), "TREZOR");
    assert_eq!(
        hex(s.as_bytes()),
        "c55257c360c07c72029aebc1b53c05ed0362ada38ead3e3e9efa3708e53495531f09a6987599d18264c1e1c92f2cf141630c7a3c4ab7c81b2f001698e7463b04"
    );
    let s2 = to_seed(&abandon_about(), "");
    assert_eq!(
        hex(s2.as_bytes()),
        "5eb00bbddcf069084889a8ab9155568165f5c453ccb85e70811aaed6f6da5fc19a5ac40b389cd370d086206dec8aa6c43daea6690f20ad3d8d48b2d2ce9e38e4"
    );
    assert_eq!(to_seed(&abandon_about(), "TREZOR").as_bytes(), s.as_bytes());
}

#[test]
fn master_and_hardened_children_match_reference() {
    let seed = to_seed(&abandon_about(), "TREZOR");
    let m = master_key(&seed).unwrap();
    assert_eq!(hex(&private_bytes(&m)), "cbedc75b0d6412c85c79bc13875112ef912fd1e756631b5a00330866f22ff184");
    assert_eq!(hex(m.chain_code.as_bytes()), "a3fa8c983223306de0f0f65e74ebb1e98aba751633bf91d5fb56529aa5c132c1");
    let c = derive_child(&m, 44, true).unwrap();
    assert_eq!(hex(&private_bytes(&c)), "a7bc0e57104799aa595b8c0badf1efc89e7117bcf3f6a769931d590610e00275");
    assert_eq!(c.depth, 1);
    assert_eq!(c.child_index, 44);
    let k = derive_path(&m, "m/44'/396'/0'").unwrap();
    assert_eq!(hex(&private_bytes(&k)), "c7896451433d0a3a76d31d2e99c4cd757b8b4ff4d31d703375b2f8f3d041e416");
    assert_eq!(hex(k.chain_code.as_bytes()), "1dcba2609e8277038fc8745408f027693c1e216db96fc8093b29d1181844a011");
    assert_eq!(k.depth, 3);
}

#[test]
fn derivation_is_deterministic_and_indices_differ() {
    let seed = key512(&[0x5au8; 64]).unwrap();
    let m = master_key(&seed).unwrap();
    let a = derive_path(&m, "m/1'/2'").unwrap();
    let b = derive_path(&m, "m/1'/2'").unwrap();
    assert_eq!(private_bytes(&a), private_bytes(&b));
    assert_eq!(a.chain_code.as_bytes(), b.chain_code.as_bytes());
    let c = derive_path(&m, "m/1'/3'").unwrap();
    assert_ne!(a.chain_code.as_bytes(), c.chain_code.as_bytes());
}

#[test]
fn public_keys_have_no_hardened_children() {
    let p = ExtendedKey {
        key: KeyMaterial::Public(vec![2u8; 33]),
        chain_code: SecretBufConst::from([1u8; 32]),
        depth: 0,
        child_index: 0,
        hardened: false,
    };
    assert_eq!(derive_child(&p, 0, true).err().unwrap().code, 115);
    let seed = key512(&[1u8; 64]).unwrap();
    let m = master_key(&seed).unwrap();
    let normal = derive_child(&m, 0, false).ok().unwrap();
    let hard = derive_child(&m, 0, true).ok().unwrap();
    assert_ne!(private_bytes(&normal), private_bytes(&hard));
    assert!(!normal.hardened && hard.hardened);
    assert_eq!(derive_child(&m, 0x8000_0000, true).err().unwrap().code, 115);
}

#[test]
fn paths_parse() {
    assert_eq!(
        parse_path("m/44'/396'/0'/0/0").unwrap(),
        vec![
            PathStep { index: 44, hardened: true },
            PathStep { index: 396, hardened: true },
            PathStep { index: 0, hardened: true },
            PathStep { index: 0, hardened: false },
            PathStep { index: 0, hardened: false },
        ]
    );
    assert_eq!(parse_path("m").unwrap(), vec![]);
    assert_eq!(parse_path("m/2147483647").unwrap(), vec![PathStep { index: 2147483647, hardened: false }]);
    for bad in ["", "x/1", "m/", "m//1", "m/1''", "m/'", "m/2147483648", "m/1a", "m1", "m/44'/"] {
        assert_eq!(parse_path(bad).unwrap_err().code, 116, "{}", bad);
    }
}

#[test]
fn full_scenario_is_reproducible() {
    let entropy: Vec<u8> = (0..32).map(|i| (i * 7 + 3) as u8).collect();
    let d = dictionary();
    let run = || {
        let words = from_entropy(&entropy, &d).unwrap();
        assert_eq!(words.len(), 24);
        let seed = to_seed(&words, "");
        let m = master_key(&seed).unwrap();
        let hardened = derive_path(&m, "m/44'/396'/0'").unwrap();
        let full = derive_path(&m, "m/44'/396'/0'/0/0");
        (words, hex(seed.as_bytes()), private_bytes(&hardened), full.map(|k| private_bytes(&k)).map_err(|e| e.code))
    };
    let first = run();
    let second = run();
    assert_eq!(first, second);
    assert!(first.3.is_ok());
}

#[test]
fn registry_register_get_unregister() {
    let mut r: BoxRegistry<String> = BoxRegistry::new(BoxKind::Signing);
    let h = r.register("signer".to_string()).unwrap();
    assert_eq!(r.get(h).unwrap(), "signer");
    let h2 = r.register("other".to_string()).unwrap();
    assert_ne!(h, h2);
    assert!(r.unregister(h));
    let e = r.get(h).unwrap_err();
    assert_eq!(e.code, 121);
    assert_eq!(e.message, format!("Signing box is not registered. ID {}", h));
    assert_eq!(r.get(h2).unwrap(), "other");
    assert!(!r.unregister(h));
}

#[test]
fn registry_errors_follow_class() {
    let r: BoxRegistry<u8> = BoxRegistry::new(BoxKind::Encryption);
    assert_eq!(r.get(9).unwrap_err().code, 123);
    let r: BoxRegistry<u8> = BoxRegistry::new(BoxKind::Crypto);
    assert_eq!(r.get(9).unwrap_err().code, 130);
    assert_eq!(r.kind(), BoxKind::Crypto);
}

#[test]
fn checksum_misses_some_word_changes() {
    let d = dictionary();
    let mut words = abandon_about();
    words[0] = "w0007".to_string();
    assert!(validate(&words, &d).is_ok());
    assert_ne!(mnemonic_to_entropy(&words, &d).unwrap(), vec![0u8; 16]);
}

#[test]
fn checked_key_constructors() {
    assert_eq!(ExtendedKey::from_public(vec![2u8; 32], SecretBufConst::from([0u8; 32])).err().unwrap().code, 109);
    let p = ExtendedKey::from_public(vec![3u8; 33], SecretBufConst::from([0u8; 32])).ok().unwrap();
    assert_eq!(derive_path(&p, "m/0'").err().unwrap().code, 116);
    assert_eq!(ExtendedKey::from_private(SecretBufConst::from([0u8; 32]), SecretBufConst::from([0u8; 32])).err().unwrap().code, 115);
    assert_eq!(ExtendedKey::from_private(SecretBufConst::from([0xffu8; 32]), SecretBufConst::from([0u8; 32])).err().unwrap().code, 115);
    let k = ExtendedKey::from_private(SecretBufConst::from([1u8; 32]), SecretBufConst::from([2u8; 32])).ok().unwrap();
    assert!(derive_child(&k, 5, true).is_ok());
}

fn unhex(s: &str) -> Vec<u8> {
    (0..s.len()).step_by(2).map(|i| u8::from_str_radix(&s[i..i + 2], 16).unwrap()).collect()
}

#[test]
fn non_hardened_path_matches_reference() {
    let seed = to_seed(&abandon_about(), "TREZOR");
    let m = master_key(&seed).unwrap();
    let k = derive_path(&m, "m/44'/396'/0'/0/0").unwrap();
    assert_eq!(hex(&private_bytes(&k)), "f7bbd779dfef6029527205ef71ac806145784cef5bc28f26b2b08b82b180dfe9");
    assert_eq!(hex(k.chain_code.as_bytes()), "9e16c4cc20148bc79ba870408744524b0c21478dfb8d9c16c915a277446c7957");
    assert_eq!(k.depth, 5);
    let parent = derive_path(&m, "m/44'/396'/0'").unwrap();
    let normal = derive_child(&parent, 0, false).ok().unwrap();
    let hard = derive_child(&parent, 0, true).ok().unwrap();
    assert_eq!(hex(&private_bytes(&normal)), "b3f4c94406a2440028af4110aabc7c49c77a1e34eecddd4fbb7b657acd25bec3");
    assert_eq!(hex(&private_bytes(&hard)), "9b72ad40670a9fcae7b2dcfa17109f368d85caeccf7d74f8cd445f218295ec78");
}

#[test]
fn public_parent_derives_matching_public_child() {
    let mut chain = [0u8; 32];
    chain.copy_from_slice(&unhex("1dcba2609e8277038fc8745408f027693c1e216db96fc8093b29d1181844a011"));
    let parent = ExtendedKey::from_public(
        unhex("02b23a2ef2e229c2f1eee6b92b388eabb53472abab40128f2bb66c65949f396903"),
        SecretBufConst::from(chain),
    )
    .ok()
    .unwrap();
    let child = derive_child(&parent, 0, false).ok().unwrap();
    match &child.key {
        KeyMaterial::Public(p) => assert_eq!(hex(p), "02c458b4acaab91da0617416e98d7d0d9cbbcb4e392c7a36569f9ee6169297fef1"),
        KeyMaterial::Private(_) => panic!("private key"),
    }
    assert_eq!(hex(child.chain_code.as_bytes()), "32c336fc976bdafaf02aed6dbf00812850853d7accdcd6777bf896364b9e4386");
    assert_eq!(derive_child(&parent, 0, true).err().unwrap().code, 115);
}

#[test]
fn redaction_counts_bytes() {
    assert_eq!(strip_secret("aaaaaaaa\u{436}"), "\"aaaaaaaa...\" (10 chars)");
    assert_eq!(strip_secret("abcdefg\u{436}xyz"), "\"abcdefg...\" (12 chars)");
    assert_eq!(strip_secret("\u{436}\u{436}\u{436}\u{436}"), "\"\u{436}\u{436}\u{436}\u{436}\"");
}
