//! The error taxonomy: numeric categories, structured error values and
//! one constructor per failure kind.
use vstd::prelude::*;
use vstd::string::to_string_from_display_ensures;
use crate::text::{decimal, joined, push_decimal, push_joined};
use vstd::utf8::{encode_scalar, encode_utf8};

verus! {

/// Block-cipher chaining modes.
#[derive(Clone, Copy, Debug, PartialEq, Eq, Structural)]
pub enum CipherMode {
    CBC,
    CFB,
    CTR,
    ECB,
    OFB,
}

/// The name of a mode, as written in messages and requests.
pub open spec fn mode_name(m: CipherMode) -> Seq<char> {
    match m {
        CipherMode::CBC => "CBC"@,
        CipherMode::CFB => "CFB"@,
        CipherMode::CTR => "CTR"@,
        CipherMode::ECB => "ECB"@,
        CipherMode::OFB => "OFB"@,
    }
}

impl CipherMode {
    /// The name of the mode.
    pub fn name(self) -> (r: &'static str)
        ensures
            r@ == mode_name(self),
    {
        match self {
            CipherMode::CBC => "CBC",
            CipherMode::CFB => "CFB",
            CipherMode::CTR => "CTR",
            CipherMode::ECB => "ECB",
            CipherMode::OFB => "OFB",
        }
    }
}

/// How many characters of a secret may be echoed back.
pub const SECRET_SHOW_LEN: usize = 8;

/// The number of UTF-8 bytes of `c`.
pub open spec fn utf8_width(c: char) -> nat {
    encode_scalar(c as u32).len()
}

/// The number of leading characters of `s` whose UTF-8 encoding fits in
/// `limit` bytes.
pub open spec fn prefix_within(s: Seq<char>, limit: nat) -> nat
    decreases s.len(),
{
    if s.len() == 0 || utf8_width(s[0]) > limit {
        0
    } else {
        1 + prefix_within(s.drop_first(), (limit - utf8_width(s[0])) as nat)
    }
}

/// The redacted rendering of a secret: the whole of it in quotes when its
/// UTF-8 encoding has at most `SECRET_SHOW_LEN` bytes; else, in quotes, the
/// characters within its first `SECRET_SHOW_LEN` bytes (all of them when a
/// character ends there, else backing off to the last character that ends
/// before), an ellipsis, and its length in bytes.
pub open spec fn stripped(secret: Seq<char>) -> Seq<char> {
    let n = encode_utf8(secret).len();
    if n <= SECRET_SHOW_LEN {
        "\""@ + secret + "\""@
    } else {
        "\""@ + secret.take(prefix_within(secret, SECRET_SHOW_LEN as nat) as int) + "...\" ("@
            + decimal(n) + " chars)"@
    }
}

fn char_width(c: char) -> (r: usize)
    ensures
        r == utf8_width(c),
{
    let v = c as u32;
    if v <= 0x7F {
        1
    } else if v <= 0x7FF {
        2
    } else if v <= 0xFFFF && !(0xD800 <= v && v <= 0xDFFF) {
        3
    } else {
        4
    }
}

/// Renders a secret for a diagnostic message without revealing all of it.
pub fn strip_secret(secret: &str) -> (r: String)
    ensures
        r@ == stripped(secret@),
{
    let total = secret.as_bytes().len();
    assert(total == encode_utf8(secret@).len());
    let mut r = String::from_str("\"");
    if total <= SECRET_SHOW_LEN {
        r.append(secret);
        r.append("\"");
    } else {
        let ghost s = secret@;
        let n = secret.unicode_len();
        let mut i: usize = 0;
        let mut used: usize = 0;
        assert(s.skip(0) =~= s);
        while i < n
            invariant
                s == secret@,
                n == s.len(),
                i <= n,
                used <= SECRET_SHOW_LEN,
                prefix_within(s, SECRET_SHOW_LEN as nat) == i + prefix_within(
                    s.skip(i as int),
                    (SECRET_SHOW_LEN - used) as nat,
                ),
            ensures
                i == n || prefix_within(s.skip(i as int), (SECRET_SHOW_LEN - used) as nat) == 0,
                prefix_within(s, SECRET_SHOW_LEN as nat) == i + prefix_within(
                    s.skip(i as int),
                    (SECRET_SHOW_LEN - used) as nat,
                ),
            decreases n - i,
        {
            let w = char_width(secret.get_char(i));
            assert(s.skip(i as int)[0] == s[i as int]);
            assert(s.skip(i as int).drop_first() =~= s.skip(i + 1));
            if used + w > SECRET_SHOW_LEN {
                assert(prefix_within(s.skip(i as int), (SECRET_SHOW_LEN - used) as nat) == 0);
                break;
            }
            used = used + w;
            i += 1;
        }
        proof {
            if i == n {
                assert(s.skip(i as int).len() == 0);
            }
            assert(prefix_within(s, SECRET_SHOW_LEN as nat) == i);
            assert(s.subrange(0, i as int) =~= s.take(i as int));
        }
        r.append(secret.substring_char(0, i));
        r.append("...\" (");
        push_decimal(&mut r, total);
        r.append(" chars)");
    }
    assert(r@ =~= stripped(secret@));
    r
}

/// The closed set of failure categories.
    #[derive(Clone, Copy, Debug, PartialEq, Eq, Structural)]
    pub enum ErrorCode {
        InvalidPublicKey,
        InvalidSecretKey,
        InvalidKey,
        InvalidFactorizeChallenge,
        InvalidBigInt,
        ScryptFailed,
        InvalidKeySize,
        NaclSecretBoxFailed,
        NaclBoxFailed,
        NaclSignFailed,
        Bip39InvalidEntropy,
        Bip39InvalidPhrase,
        Bip32InvalidKey,
        Bip32InvalidDerivePath,
        Bip39InvalidDictionary,
        Bip39InvalidWordCount,
        MnemonicGenerationFailed,
        MnemonicFromEntropyFailed,
        SigningBoxNotRegistered,
        InvalidSignature,
        EncryptionBoxNotRegistered,
        InvalidIvSize,
        UnsupportedCipherMode,
        CannotCreateCipher,
        EncryptDataError,
        DecryptDataError,
        IvRequired,
        CryptoBoxNotRegistered,
        InvalidCryptoBoxType,
        CryptoBoxSecretSerializationError,
        CryptoBoxSecretDeserializationError,
        InvalidNonceSize,
        InvalidBoc,
        SerializationError,
        InappropriateBlock,
        MissingSourceBoc,
        InsufficientCacheSize,
        BocRefNotFound,
        InvalidBocRef,
        RequiredAddressMissingForEncodeMessage,
        RequiredCallSetMissingForEncodeMessage,
        InvalidJson,
        InvalidMessage,
        EncodeDeployMessageFailed,
        EncodeRunMessageFailed,
        AttachSignatureFailed,
        InvalidTvcImage,
        RequiredPublicKeyMissingForFunctionHeader,
        InvalidSigner,
        InvalidAbi,
        InvalidFunctionId,
        InvalidData,
        EncodeInitialDataFailed,
        InvalidFunctionName,
        PubKeyNotSupported,
    }

    impl ErrorCode {
        /// The numeric code of the category.
        pub open spec fn spec_value(self) -> u32 {
            match self {
                ErrorCode::InvalidPublicKey => 100,
                ErrorCode::InvalidSecretKey => 101,
                ErrorCode::InvalidKey => 102,
                ErrorCode::InvalidFactorizeChallenge => 106,
                ErrorCode::InvalidBigInt => 107,
                ErrorCode::ScryptFailed => 108,
                ErrorCode::InvalidKeySize => 109,
                ErrorCode::NaclSecretBoxFailed => 110,
                ErrorCode::NaclBoxFailed => 111,
                ErrorCode::NaclSignFailed => 112,
                ErrorCode::Bip39InvalidEntropy => 113,
                ErrorCode::Bip39InvalidPhrase => 114,
                ErrorCode::Bip32InvalidKey => 115,
                ErrorCode::Bip32InvalidDerivePath => 116,
                ErrorCode::Bip39InvalidDictionary => 117,
                ErrorCode::Bip39InvalidWordCount => 118,
                ErrorCode::MnemonicGenerationFailed => 119,
                ErrorCode::MnemonicFromEntropyFailed => 120,
                ErrorCode::SigningBoxNotRegistered => 121,
                ErrorCode::InvalidSignature => 122,
                ErrorCode::EncryptionBoxNotRegistered => 123,
                ErrorCode::InvalidIvSize => 124,
                ErrorCode::UnsupportedCipherMode => 125,
                ErrorCode::CannotCreateCipher => 126,
                ErrorCode::EncryptDataError => 127,
                ErrorCode::DecryptDataError => 128,
                ErrorCode::IvRequired => 129,
                ErrorCode::CryptoBoxNotRegistered => 130,
                ErrorCode::InvalidCryptoBoxType => 131,
                ErrorCode::CryptoBoxSecretSerializationError => 132,
                ErrorCode::CryptoBoxSecretDeserializationError => 133,
                ErrorCode::InvalidNonceSize => 134,
                ErrorCode::InvalidBoc => 201,
                ErrorCode::SerializationError => 202,
                ErrorCode::InappropriateBlock => 203,
                ErrorCode::MissingSourceBoc => 204,
                ErrorCode::InsufficientCacheSize => 205,
                ErrorCode::BocRefNotFound => 206,
                ErrorCode::InvalidBocRef => 207,
                ErrorCode::RequiredAddressMissingForEncodeMessage => 301,
                ErrorCode::RequiredCallSetMissingForEncodeMessage => 302,
                ErrorCode::InvalidJson => 303,
                ErrorCode::InvalidMessage => 304,
                ErrorCode::EncodeDeployMessageFailed => 305,
                ErrorCode::EncodeRunMessageFailed => 306,
                ErrorCode::AttachSignatureFailed => 307,
                ErrorCode::InvalidTvcImage => 308,
                ErrorCode::RequiredPublicKeyMissingForFunctionHeader => 309,
                ErrorCode::InvalidSigner => 310,
                ErrorCode::InvalidAbi => 311,
                ErrorCode::InvalidFunctionId => 312,
                ErrorCode::InvalidData => 313,
                ErrorCode::EncodeInitialDataFailed => 314,
                ErrorCode::InvalidFunctionName => 315,
                ErrorCode::PubKeyNotSupported => 316,
            }
        }

        /// The numeric code of the category.
        #[verifier::when_used_as_spec(spec_value)]
        pub fn value(self) -> (r: u32)
            ensures
                r == self.spec_value(),
        {
            match self {
                ErrorCode::InvalidPublicKey => 100,
                ErrorCode::InvalidSecretKey => 101,
                ErrorCode::InvalidKey => 102,
                ErrorCode::InvalidFactorizeChallenge => 106,
                ErrorCode::InvalidBigInt => 107,
                ErrorCode::ScryptFailed => 108,
                ErrorCode::InvalidKeySize => 109,
                ErrorCode::NaclSecretBoxFailed => 110,
                ErrorCode::NaclBoxFailed => 111,
                ErrorCode::NaclSignFailed => 112,
                ErrorCode::Bip39InvalidEntropy => 113,
                ErrorCode::Bip39InvalidPhrase => 114,
                ErrorCode::Bip32InvalidKey => 115,
                ErrorCode::Bip32InvalidDerivePath => 116,
                ErrorCode::Bip39InvalidDictionary => 117,
                ErrorCode::Bip39InvalidWordCount => 118,
                ErrorCode::MnemonicGenerationFailed => 119,
                ErrorCode::MnemonicFromEntropyFailed => 120,
                ErrorCode::SigningBoxNotRegistered => 121,
                ErrorCode::InvalidSignature => 122,
                ErrorCode::EncryptionBoxNotRegistered => 123,
                ErrorCode::InvalidIvSize => 124,
                ErrorCode::UnsupportedCipherMode => 125,
                ErrorCode::CannotCreateCipher => 126,
                ErrorCode::EncryptDataError => 127,
                ErrorCode::DecryptDataError => 128,
                ErrorCode::IvRequired => 129,
                ErrorCode::CryptoBoxNotRegistered => 130,
                ErrorCode::InvalidCryptoBoxType => 131,
                ErrorCode::CryptoBoxSecretSerializationError => 132,
                ErrorCode::CryptoBoxSecretDeserializationError => 133,
                ErrorCode::InvalidNonceSize => 134,
                ErrorCode::InvalidBoc => 201,
                ErrorCode::SerializationError => 202,
                ErrorCode::InappropriateBlock => 203,
                ErrorCode::MissingSourceBoc => 204,
                ErrorCode::InsufficientCacheSize => 205,
                ErrorCode::BocRefNotFound => 206,
                ErrorCode::InvalidBocRef => 207,
                ErrorCode::RequiredAddressMissingForEncodeMessage => 301,
                ErrorCode::RequiredCallSetMissingForEncodeMessage => 302,
                ErrorCode::InvalidJson => 303,
                ErrorCode::InvalidMessage => 304,
                ErrorCode::EncodeDeployMessageFailed => 305,
                ErrorCode::EncodeRunMessageFailed => 306,
                ErrorCode::AttachSignatureFailed => 307,
                ErrorCode::InvalidTvcImage => 308,
                ErrorCode::RequiredPublicKeyMissingForFunctionHeader => 309,
                ErrorCode::InvalidSigner => 310,
                ErrorCode::InvalidAbi => 311,
                ErrorCode::InvalidFunctionId => 312,
                ErrorCode::InvalidData => 313,
                ErrorCode::EncodeInitialDataFailed => 314,
                ErrorCode::InvalidFunctionName => 315,
                ErrorCode::PubKeyNotSupported => 316,
            }
        }
    }

/// A value of the structured data block of an error.
#[derive(Clone, Debug)]
pub enum DataValue {
    Text(String),
    Number(usize),
}

/// The mathematical value of a [`DataValue`].
pub enum DataView {
    Text(Seq<char>),
    Number(nat),
}

impl View for DataValue {
    type V = DataView;

    open spec fn view(&self) -> DataView {
        match self {
            DataValue::Text(s) => DataView::Text(s@),
            DataValue::Number(n) => DataView::Number(*n as nat),
        }
    }
}

/// One named value of the structured data block.
#[derive(Clone, Debug)]
pub struct DataEntry {
    pub key: String,
    pub value: DataValue,
}

/// The structured data block of an error: named values, each name once,
/// in the order in which they were first set.
#[derive(Clone, Debug)]
pub struct ErrorData {
    pub entries: Vec<DataEntry>,
}

impl View for ErrorData {
    type V = Seq<(Seq<char>, DataView)>;

    open spec fn view(&self) -> Seq<(Seq<char>, DataView)> {
        self.entries@.map_values(|e: DataEntry| (e.key@, e.value@))
    }
}

/// The data block that every error starts with.
pub open spec fn base_data() -> Seq<(Seq<char>, DataView)> {
    seq![("core_version"@, DataView::Text("gate"@))]
}

/// What setting `key` to `v` makes of the data block `d`: the value of an
/// existing entry is replaced, else the entry is added at the end.
pub open spec fn data_set(d: Seq<(Seq<char>, DataView)>, key: Seq<char>, v: DataView) -> Seq<(Seq<char>, DataView)> {
    if exists|i: int| 0 <= i < d.len() && d[i].0 == key {
        let i = choose|i: int| 0 <= i < d.len() && d[i].0 == key;
        d.update(i, (key, v))
    } else {
        d.push((key, v))
    }
}

impl ErrorData {
    /// The names in the block are pairwise distinct.
    pub open spec fn wf(&self) -> bool {
        forall|i: int, j: int|
            0 <= i < j < self@.len() ==> #[trigger] self@[i].0 != #[trigger] self@[j].0
    }

    /// The data block that every error starts with.
    pub fn base() -> (r: ErrorData)
        ensures
            r@ == base_data(),
            r.wf(),
    {
        let e = DataEntry { key: String::from_str("core_version"), value: DataValue::Text(String::from_str("gate")) };
        let r = ErrorData { entries: vec![e] };
        assert(r@ =~= base_data());
        r
    }

    /// Sets the value named `key`.
    pub fn set(&mut self, key: &str, value: DataValue)
        requires
            old(self).wf(),
        ensures
            final(self).wf(),
            final(self)@ == data_set(old(self)@, key@, value@),
    {
        let ghost d = self@;
        let name = String::from_str(key);
        let mut i: usize = 0;
        while i < self.entries.len()
            invariant
                i <= self.entries@.len(),
                self@ == d,
                d == old(self)@,
                old(self).wf(),
                name@ == key@,
                forall|j: int| 0 <= j < i ==> self@[j].0 != key@,
            decreases self.entries@.len() - i,
        {
            assert(self@[i as int] == (self.entries@[i as int].key@, self.entries@[i as int].value@));
            if self.entries[i].key.eq(&name) {
                let ghost v = value@;
                assert(d[i as int].0 == key@);
                self.entries.set(i, DataEntry { key: name, value });
                proof {
                    let k = choose|k: int| 0 <= k < d.len() && d[k].0 == key@;
                    assert(k == i) by {
                        if k < i {
                        } else if k > i {
                            assert(old(self)@[i as int].0 != old(self)@[k].0);
                        }
                    }
                    assert(self@ =~= d.update(i as int, (key@, v)));
                }
                return;
            }
            i += 1;
        }
        self.entries.push(DataEntry { key: name, value });
        assert(self@ =~= d.push((key@, value@)));
    }
}

/// A failure: numeric category, human-readable message and structured data.
#[derive(Clone, Debug)]
pub struct ClientError {
    pub code: u32,
    pub message: String,
    pub data: ErrorData,
}

/// An error with the given code and message and the base data block.
pub open spec fn is_plain(r: ClientError, code: u32, message: Seq<char>) -> bool {
    r.code == code && r.message@ == message && r.data@ == base_data() && r.data.wf()
}

impl ClientError {
    /// An error with the given code and message and the base data block.
    pub fn with_code_message(code: u32, message: String) -> (r: Self)
        ensures
            is_plain(r, code, message@),
    {
        ClientError { code, message, data: ErrorData::base() }
    }
}

/// Result of an operation of this library.
pub type ClientResult<T> = Result<T, ClientError>;

fn error(code: ErrorCode, message: String) -> (r: ClientError)
    ensures
        is_plain(r, code.value(), message@),
{
    ClientError::with_code_message(code.value(), message)
}


/// `m` is `before`, then what `Display` renders of `e`, then `after`.
pub open spec fn shows<E: std::fmt::Display>(e: &E, before: Seq<char>, after: Seq<char>, m: Seq<char>) -> bool {
    exists|t: String| #[trigger] to_string_from_display_ensures::<E>(e, t) && m == before + t@ + after
}

/// The data block of a cache-size error.
pub open spec fn cache_size_data(max_cache_size: nat, boc_size: nat) -> Seq<(Seq<char>, DataView)> {
    base_data().push(("max_cache_size"@, DataView::Number(max_cache_size))).push(("boc_size"@, DataView::Number(boc_size)))
}

/// The data block of an error about a cache reference.
pub open spec fn boc_ref_data(boc_ref: Seq<char>) -> Seq<(Seq<char>, DataView)> {
    base_data().push(("boc_ref"@, DataView::Text(boc_ref)))
}

fn shown<E: std::fmt::Display>(e: &E) -> (r: String)
    ensures
        to_string_from_display_ensures::<E>(e, r),
{
    e.to_string()
}

/// Constructors of the errors of each category.
pub struct Error;

impl Error {
    /// A factorization challenge that could not be used.
    pub fn invalid_factorize_challenge<E: std::fmt::Display>(hex: &String, err: E) -> (r: ClientError)
        ensures
            r.code == ErrorCode::InvalidFactorizeChallenge.spec_value(),
            r.data@ == base_data(),
            r.data.wf(),
            shows(&err, "Invalid factorize challenge: "@, "\r\nchallenge: ["@ + hex@ + "]"@, r.message@),
    {
        let t = shown(&err);
        let mut m = String::from_str("Invalid factorize challenge: ");
        m.append(t.as_str());
        m.append("\r\nchallenge: [");
        m.append(hex.as_str());
        m.append("]");
        assert(m@ =~= "Invalid factorize challenge: "@ + t@ + ("\r\nchallenge: ["@ + hex@ + "]"@));
        error(ErrorCode::InvalidFactorizeChallenge, m)
    }

    /// A big integer that could not be parsed.
    pub fn invalid_big_int(hex: &String) -> (r: ClientError)
        ensures
            r.code == ErrorCode::InvalidBigInt.spec_value(),
            r.data@ == base_data(),
            r.data.wf(),
            r.message@ == "Invalid big int ["@ + hex@ + "]"@,
    {
        let mut m = String::from_str("Invalid big int [");
        m.append(hex.as_str());
        m.append("]");
        error(ErrorCode::InvalidBigInt, m)
    }

    /// The key-stretching function failed.
    pub fn scrypt_failed<E: std::fmt::Display>(err: E) -> (r: ClientError)
        ensures
            r.code == ErrorCode::ScryptFailed.spec_value(),
            r.data@ == base_data(),
            r.data.wf(),
            shows(&err, "Scrypt failed: "@, Seq::empty(), r.message@),
    {
        let t = shown(&err);
        let mut m = String::from_str("Scrypt failed: ");
        m.append(t.as_str());
        assert(m@ =~= "Scrypt failed: "@ + t@ + Seq::empty());
        error(ErrorCode::ScryptFailed, m)
    }

    /// A key of a size other than the accepted ones.
    pub fn invalid_key_size(actual: usize, expected: &[usize]) -> (r: ClientError)
        ensures
            r.code == ErrorCode::InvalidKeySize.spec_value(),
            r.data@ == base_data(),
            r.data.wf(),
            r.message@ == "Invalid key size "@ + decimal(actual as nat) + ". Expected "@ + joined(expected@, " or "@) + "."@,
    {
        let mut m = String::from_str("Invalid key size ");
        push_decimal(&mut m, actual);
        m.append(". Expected ");
        push_joined(&mut m, expected, " or ");
        m.append(".");
        error(ErrorCode::InvalidKeySize, m)
    }

    /// Secret-box sealing or opening failed.
    pub fn nacl_secret_box_failed<E: std::fmt::Display>(err: E) -> (r: ClientError)
        ensures
            r.code == ErrorCode::NaclSecretBoxFailed.spec_value(),
            r.data@ == base_data(),
            r.data.wf(),
            shows(&err, "Nacl Secret Box failed: "@, Seq::empty(), r.message@),
    {
        let t = shown(&err);
        let mut m = String::from_str("Nacl Secret Box failed: ");
        m.append(t.as_str());
        assert(m@ =~= "Nacl Secret Box failed: "@ + t@ + Seq::empty());
        error(ErrorCode::NaclSecretBoxFailed, m)
    }

    /// Public-key box sealing or opening failed.
    pub fn nacl_box_failed<E: std::fmt::Display>(err: E) -> (r: ClientError)
        ensures
            r.code == ErrorCode::NaclBoxFailed.spec_value(),
            r.data@ == base_data(),
            r.data.wf(),
            shows(&err, "Box failed: "@, Seq::empty(), r.message@),
    {
        let t = shown(&err);
        let mut m = String::from_str("Box failed: ");
        m.append(t.as_str());
        assert(m@ =~= "Box failed: "@ + t@ + Seq::empty());
        error(ErrorCode::NaclBoxFailed, m)
    }

    /// Signing failed.
    pub fn nacl_sign_failed<E: std::fmt::Display>(err: E) -> (r: ClientError)
        ensures
            r.code == ErrorCode::NaclSignFailed.spec_value(),
            r.data@ == base_data(),
            r.data.wf(),
            shows(&err, "Sign failed: "@, Seq::empty(), r.message@),
    {
        let t = shown(&err);
        let mut m = String::from_str("Sign failed: ");
        m.append(t.as_str());
        assert(m@ =~= "Sign failed: "@ + t@ + Seq::empty());
        error(ErrorCode::NaclSignFailed, m)
    }

    /// Entropy of an unsupported length.
    pub fn bip39_invalid_entropy<E: std::fmt::Display>(err: E) -> (r: ClientError)
        ensures
            r.code == ErrorCode::Bip39InvalidEntropy.spec_value(),
            r.data@ == base_data(),
            r.data.wf(),
            shows(&err, "Invalid bip39 entropy: "@, Seq::empty(), r.message@),
    {
        let t = shown(&err);
        let mut m = String::from_str("Invalid bip39 entropy: ");
        m.append(t.as_str());
        assert(m@ =~= "Invalid bip39 entropy: "@ + t@ + Seq::empty());
        error(ErrorCode::Bip39InvalidEntropy, m)
    }

    /// A phrase with an unknown word or a wrong checksum.
    pub fn bip39_invalid_phrase<E: std::fmt::Display>(err: E) -> (r: ClientError)
        ensures
            r.code == ErrorCode::Bip39InvalidPhrase.spec_value(),
            r.data@ == base_data(),
            r.data.wf(),
            shows(&err, "Invalid bip39 phrase: "@, Seq::empty(), r.message@),
    {
        let t = shown(&err);
        let mut m = String::from_str("Invalid bip39 phrase: ");
        m.append(t.as_str());
        assert(m@ =~= "Invalid bip39 phrase: "@ + t@ + Seq::empty());
        error(ErrorCode::Bip39InvalidPhrase, m)
    }

    /// A derivation that gave no valid key, or needs a private key.
    pub fn bip32_invalid_key<E: std::fmt::Display>(err: E) -> (r: ClientError)
        ensures
            r.code == ErrorCode::Bip32InvalidKey.spec_value(),
            r.data@ == base_data(),
            r.data.wf(),
            shows(&err, "Invalid bip32 key: "@, Seq::empty(), r.message@),
    {
        let t = shown(&err);
        let mut m = String::from_str("Invalid bip32 key: ");
        m.append(t.as_str());
        assert(m@ =~= "Invalid bip32 key: "@ + t@ + Seq::empty());
        error(ErrorCode::Bip32InvalidKey, m)
    }

    /// A derivation path that is malformed or fails at a step.
    pub fn bip32_invalid_derive_path<E: std::fmt::Display>(path: E) -> (r: ClientError)
        ensures
            r.code == ErrorCode::Bip32InvalidDerivePath.spec_value(),
            r.data@ == base_data(),
            r.data.wf(),
            shows(&path, "Invalid bip32 derive path: "@, Seq::empty(), r.message@),
    {
        let t = shown(&path);
        let mut m = String::from_str("Invalid bip32 derive path: ");
        m.append(t.as_str());
        assert(m@ =~= "Invalid bip32 derive path: "@ + t@ + Seq::empty());
        error(ErrorCode::Bip32InvalidDerivePath, m)
    }

    /// An unknown dictionary id.
    pub fn bip39_invalid_dictionary(dictionary: u8) -> (r: ClientError)
        ensures
            r.code == ErrorCode::Bip39InvalidDictionary.spec_value(),
            r.data@ == base_data(),
            r.data.wf(),
            r.message@ == "Invalid mnemonic dictionary: "@ + decimal(dictionary as nat),
    {
        let mut m = String::from_str("Invalid mnemonic dictionary: ");
        push_decimal(&mut m, dictionary as usize);
        error(ErrorCode::Bip39InvalidDictionary, m)
    }

    /// A word count other than 12, 15, 18, 21 or 24.
    pub fn bip39_invalid_word_count(word_count: u8) -> (r: ClientError)
        ensures
            r.code == ErrorCode::Bip39InvalidWordCount.spec_value(),
            r.data@ == base_data(),
            r.data.wf(),
            r.message@ == "Invalid mnemonic word count: "@ + decimal(word_count as nat),
    {
        let mut m = String::from_str("Invalid mnemonic word count: ");
        push_decimal(&mut m, word_count as usize);
        error(ErrorCode::Bip39InvalidWordCount, m)
    }

    /// A secret key that could not be used; the key is shown redacted.
    pub fn invalid_secret_key<E: std::fmt::Display>(err: E, key: &String) -> (r: ClientError)
        ensures
            r.code == ErrorCode::InvalidSecretKey.spec_value(),
            r.data@ == base_data(),
            r.data.wf(),
            shows(&err, "Invalid secret key ["@ + stripped(key@) + "]: "@, Seq::empty(), r.message@),
    {
        let shown_key = strip_secret(key.as_str());
        let t = shown(&err);
        let mut m = String::from_str("Invalid secret key [");
        m.append(shown_key.as_str());
        m.append("]: ");
        m.append(t.as_str());
        assert(m@ =~= "Invalid secret key ["@ + stripped(key@) + "]: "@ + t@ + Seq::empty());
        error(ErrorCode::InvalidSecretKey, m)
    }

    /// A public key that could not be used.
    pub fn invalid_public_key<E: std::fmt::Display>(err: E, key: &String) -> (r: ClientError)
        ensures
            r.code == ErrorCode::InvalidPublicKey.spec_value(),
            r.data@ == base_data(),
            r.data.wf(),
            shows(&err, "Invalid public key ["@ + key@ + "]: "@, Seq::empty(), r.message@),
    {
        let shown_key = key.clone();
        let t = shown(&err);
        let mut m = String::from_str("Invalid public key [");
        m.append(shown_key.as_str());
        m.append("]: ");
        m.append(t.as_str());
        assert(m@ =~= "Invalid public key ["@ + key@ + "]: "@ + t@ + Seq::empty());
        error(ErrorCode::InvalidPublicKey, m)
    }

    /// A signature that could not be used.
    pub fn invalid_signature<E: std::fmt::Display>(err: E, signature: &String) -> (r: ClientError)
        ensures
            r.code == ErrorCode::InvalidSignature.spec_value(),
            r.data@ == base_data(),
            r.data.wf(),
            shows(&err, "Invalid signature ["@ + signature@ + "]: "@, Seq::empty(), r.message@),
    {
        let shown_key = signature.clone();
        let t = shown(&err);
        let mut m = String::from_str("Invalid signature [");
        m.append(shown_key.as_str());
        m.append("]: ");
        m.append(t.as_str());
        assert(m@ =~= "Invalid signature ["@ + signature@ + "]: "@ + t@ + Seq::empty());
        error(ErrorCode::InvalidSignature, m)
    }

    /// A key that could not be used; the key is shown redacted.
    pub fn invalid_key<E: std::fmt::Display>(err: E, key: &String) -> (r: ClientError)
        ensures
            r.code == ErrorCode::InvalidKey.spec_value(),
            r.data@ == base_data(),
            r.data.wf(),
            shows(&err, "Invalid key ["@ + stripped(key@) + "]: "@, Seq::empty(), r.message@),
    {
        let shown_key = strip_secret(key.as_str());
        let t = shown(&err);
        let mut m = String::from_str("Invalid key [");
        m.append(shown_key.as_str());
        m.append("]: ");
        m.append(t.as_str());
        assert(m@ =~= "Invalid key ["@ + stripped(key@) + "]: "@ + t@ + Seq::empty());
        error(ErrorCode::InvalidKey, m)
    }

    /// Generating a mnemonic failed.
    pub fn mnemonic_generation_failed() -> (r: ClientError)
        ensures
            r.code == ErrorCode::MnemonicGenerationFailed.spec_value(),
            r.data@ == base_data(),
            r.data.wf(),
            r.message@ == "Mnemonic generation failed"@,
    {
        error(ErrorCode::MnemonicGenerationFailed, String::from_str("Mnemonic generation failed"))
    }

    /// Turning entropy into a mnemonic failed.
    pub fn mnemonic_from_entropy_failed(reason: &str) -> (r: ClientError)
        ensures
            r.code == ErrorCode::MnemonicFromEntropyFailed.spec_value(),
            r.data@ == base_data(),
            r.data.wf(),
            r.message@ == "Mnemonic from entropy failed: "@ + reason@,
    {
        let mut m = String::from_str("Mnemonic from entropy failed: ");
        m.append(reason);
        error(ErrorCode::MnemonicFromEntropyFailed, m)
    }

    /// No signing box is registered under the handle.
    pub fn signing_box_not_registered(id: u32) -> (r: ClientError)
        ensures
            r.code == ErrorCode::SigningBoxNotRegistered.spec_value(),
            r.data@ == base_data(),
            r.data.wf(),
            r.message@ == "Signing box is not registered. ID "@ + decimal(id as nat),
    {
        let mut m = String::from_str("Signing box is not registered. ID ");
        push_decimal(&mut m, id as usize);
        error(ErrorCode::SigningBoxNotRegistered, m)
    }

    /// No encryption box is registered under the handle.
    pub fn encryption_box_not_registered(id: u32) -> (r: ClientError)
        ensures
            r.code == ErrorCode::EncryptionBoxNotRegistered.spec_value(),
            r.data@ == base_data(),
            r.data.wf(),
            r.message@ == "Encryption box is not registered. ID "@ + decimal(id as nat),
    {
        let mut m = String::from_str("Encryption box is not registered. ID ");
        push_decimal(&mut m, id as usize);
        error(ErrorCode::EncryptionBoxNotRegistered, m)
    }

    /// An initialization vector of the wrong length.
    pub fn invalid_iv_size(actual: usize, expected: usize) -> (r: ClientError)
        ensures
            r.code == ErrorCode::InvalidIvSize.spec_value(),
            r.data@ == base_data(),
            r.data.wf(),
            r.message@ == "Invalid IV size "@ + decimal(actual as nat) + ". Expected "@ + decimal(expected as nat) + "."@,
    {
        let mut m = String::from_str("Invalid IV size ");
        push_decimal(&mut m, actual);
        m.append(". Expected ");
        push_decimal(&mut m, expected);
        m.append(".");
        error(ErrorCode::InvalidIvSize, m)
    }

    /// A cipher mode name that is not recognized.
    pub fn unsupported_cipher_mode(mode: &str) -> (r: ClientError)
        ensures
            r.code == ErrorCode::UnsupportedCipherMode.spec_value(),
            r.data@ == base_data(),
            r.data.wf(),
            r.message@ == "Unsupported cipher mode: "@ + mode@,
    {
        let mut m = String::from_str("Unsupported cipher mode: ");
        m.append(mode);
        error(ErrorCode::UnsupportedCipherMode, m)
    }

    /// A cipher that could not be set up, as with a key of the wrong length.
    pub fn cannot_create_cipher<E: std::fmt::Display>(err: E) -> (r: ClientError)
        ensures
            r.code == ErrorCode::CannotCreateCipher.spec_value(),
            r.data@ == base_data(),
            r.data.wf(),
            shows(&err, "Can not create cipher: "@, Seq::empty(), r.message@),
    {
        let t = shown(&err);
        let mut m = String::from_str("Can not create cipher: ");
        m.append(t.as_str());
        assert(m@ =~= "Can not create cipher: "@ + t@ + Seq::empty());
        error(ErrorCode::CannotCreateCipher, m)
    }

    /// Encryption failed.
    pub fn encrypt_data_error<E: std::fmt::Display>(err: E) -> (r: ClientError)
        ensures
            r.code == ErrorCode::EncryptDataError.spec_value(),
            r.data@ == base_data(),
            r.data.wf(),
            shows(&err, "Can not encrypt data: "@, Seq::empty(), r.message@),
    {
        let t = shown(&err);
        let mut m = String::from_str("Can not encrypt data: ");
        m.append(t.as_str());
        assert(m@ =~= "Can not encrypt data: "@ + t@ + Seq::empty());
        error(ErrorCode::EncryptDataError, m)
    }

    /// Decryption failed.
    pub fn decrypt_data_error<E: std::fmt::Display>(err: E) -> (r: ClientError)
        ensures
            r.code == ErrorCode::DecryptDataError.spec_value(),
            r.data@ == base_data(),
            r.data.wf(),
            shows(&err, "Can not decrypt data: "@, Seq::empty(), r.message@),
    {
        let t = shown(&err);
        let mut m = String::from_str("Can not decrypt data: ");
        m.append(t.as_str());
        assert(m@ =~= "Can not decrypt data: "@ + t@ + Seq::empty());
        error(ErrorCode::DecryptDataError, m)
    }

    /// A mode that needs an initialization vector was given none.
    pub fn iv_required(mode: &CipherMode) -> (r: ClientError)
        ensures
            r.code == ErrorCode::IvRequired.spec_value(),
            r.data@ == base_data(),
            r.data.wf(),
            r.message@ == "initialization vector is required for "@ + mode_name(*mode) + " cipher mode"@,
    {
        let mut m = String::from_str("initialization vector is required for ");
        m.append(mode.name());
        m.append(" cipher mode");
        error(ErrorCode::IvRequired, m)
    }

    /// No crypto box is registered under the handle.
    pub fn crypto_box_not_registered(id: u32) -> (r: ClientError)
        ensures
            r.code == ErrorCode::CryptoBoxNotRegistered.spec_value(),
            r.data@ == base_data(),
            r.data.wf(),
            r.message@ == "Crypto box is not registered. ID "@ + decimal(id as nat),
    {
        let mut m = String::from_str("Crypto box is not registered. ID ");
        push_decimal(&mut m, id as usize);
        error(ErrorCode::CryptoBoxNotRegistered, m)
    }

    /// A crypto box of a kind that does not fit the request.
    pub fn invalid_crypto_box_type<E: std::fmt::Display>(err: E) -> (r: ClientError)
        ensures
            r.code == ErrorCode::InvalidCryptoBoxType.spec_value(),
            r.data@ == base_data(),
            r.data.wf(),
            shows(&err, "Invalid crypto box type: "@, Seq::empty(), r.message@),
    {
        let t = shown(&err);
        let mut m = String::from_str("Invalid crypto box type: ");
        m.append(t.as_str());
        assert(m@ =~= "Invalid crypto box type: "@ + t@ + Seq::empty());
        error(ErrorCode::InvalidCryptoBoxType, m)
    }

    /// A crypto box secret that could not be serialized.
    pub fn crypto_box_secret_serialization_error<E: std::fmt::Display>(err: E) -> (r: ClientError)
        ensures
            r.code == ErrorCode::CryptoBoxSecretSerializationError.spec_value(),
            r.data@ == base_data(),
            r.data.wf(),
            shows(&err, "Crypto box secret serialization error: "@, Seq::empty(), r.message@),
    {
        let t = shown(&err);
        let mut m = String::from_str("Crypto box secret serialization error: ");
        m.append(t.as_str());
        assert(m@ =~= "Crypto box secret serialization error: "@ + t@ + Seq::empty());
        error(ErrorCode::CryptoBoxSecretSerializationError, m)
    }

    /// A crypto box secret that could not be deserialized.
    pub fn crypto_box_secret_deserialization_error<E: std::fmt::Display>(err: E) -> (r: ClientError)
        ensures
            r.code == ErrorCode::CryptoBoxSecretDeserializationError.spec_value(),
            r.data@ == base_data(),
            r.data.wf(),
            shows(&err, "Crypto box secret deserialization error: "@, Seq::empty(), r.message@),
    {
        let t = shown(&err);
        let mut m = String::from_str("Crypto box secret deserialization error: ");
        m.append(t.as_str());
        assert(m@ =~= "Crypto box secret deserialization error: "@ + t@ + Seq::empty());
        error(ErrorCode::CryptoBoxSecretDeserializationError, m)
    }

    /// A nonce of a size other than the accepted ones.
    pub fn invalid_nonce_size(actual: usize, expected: &[usize]) -> (r: ClientError)
        ensures
            r.code == ErrorCode::InvalidNonceSize.spec_value(),
            r.data@ == base_data(),
            r.data.wf(),
            r.message@ == "Invalid nonce size "@ + decimal(actual as nat) + ". Expected "@ + joined(expected@, " or "@) + "."@,
    {
        let mut m = String::from_str("Invalid nonce size ");
        push_decimal(&mut m, actual);
        m.append(". Expected ");
        push_joined(&mut m, expected, " or ");
        m.append(".");
        error(ErrorCode::InvalidNonceSize, m)
    }

    /// ABI JSON that could not be read.
    pub fn invalid_json<E: std::fmt::Display>(err: E) -> (r: ClientError)
        ensures
            r.code == ErrorCode::InvalidJson.spec_value(),
            r.data@ == base_data(),
            r.data.wf(),
            shows(&err, "Invalid ABI JSON: "@, Seq::empty(), r.message@),
    {
        let t = shown(&err);
        let mut m = String::from_str("Invalid ABI JSON: ");
        m.append(t.as_str());
        assert(m@ =~= "Invalid ABI JSON: "@ + t@ + Seq::empty());
        error(ErrorCode::InvalidJson, m)
    }

    /// An ABI that could not be used.
    pub fn invalid_abi<E: std::fmt::Display>(err: E) -> (r: ClientError)
        ensures
            r.code == ErrorCode::InvalidAbi.spec_value(),
            r.data@ == base_data(),
            r.data.wf(),
            shows(&err, "Invalid ABI specified: "@, Seq::empty(), r.message@),
    {
        let t = shown(&err);
        let mut m = String::from_str("Invalid ABI specified: ");
        m.append(t.as_str());
        assert(m@ =~= "Invalid ABI specified: "@ + t@ + Seq::empty());
        error(ErrorCode::InvalidAbi, m)
    }

    /// A parsed value without its source bag of cells.
    pub fn missing_source_boc() -> (r: ClientError)
        ensures
            r.code == ErrorCode::MissingSourceBoc.spec_value(),
            r.data@ == base_data(),
            r.data.wf(),
            r.message@ == "Parsed value hasn't source `boc` field"@,
    {
        error(ErrorCode::MissingSourceBoc, String::from_str("Parsed value hasn't source `boc` field"))
    }

    /// A bag of cells that could not be read.
    pub fn invalid_boc<E: std::fmt::Display>(err: E) -> (r: ClientError)
        ensures
            r.code == ErrorCode::InvalidBoc.spec_value(),
            r.data@ == base_data(),
            r.data.wf(),
            shows(&err, "Invalid BOC: "@, Seq::empty(), r.message@),
    {
        let t = shown(&err);
        let mut m = String::from_str("Invalid BOC: ");
        m.append(t.as_str());
        assert(m@ =~= "Invalid BOC: "@ + t@ + Seq::empty());
        error(ErrorCode::InvalidBoc, m)
    }

    /// A value that could not be serialized.
    pub fn serialization_error<E: std::fmt::Display>(err: E, name: &str) -> (r: ClientError)
        ensures
            r.code == ErrorCode::SerializationError.spec_value(),
            r.data@ == base_data(),
            r.data.wf(),
            shows(&err, "Cannot serialize "@ + name@ + ": "@, Seq::empty(), r.message@),
    {
        let t = shown(&err);
        let mut m = String::from_str("Cannot serialize ");
        m.append(name);
        m.append(": ");
        m.append(t.as_str());
        assert(m@ =~= "Cannot serialize "@ + name@ + ": "@ + t@ + Seq::empty());
        error(ErrorCode::SerializationError, m)
    }

    /// A block that does not fit the request.
    pub fn inappropriate_block<E: std::fmt::Display>(err: E) -> (r: ClientError)
        ensures
            r.code == ErrorCode::InappropriateBlock.spec_value(),
            r.data@ == base_data(),
            r.data.wf(),
            shows(&err, "Inappropriate block: "@, Seq::empty(), r.message@),
    {
        let t = shown(&err);
        let mut m = String::from_str("Inappropriate block: ");
        m.append(t.as_str());
        assert(m@ =~= "Inappropriate block: "@ + t@ + Seq::empty());
        error(ErrorCode::InappropriateBlock, m)
    }

    /// A bag of cells too large for the cache.
    pub fn insufficient_cache_size(max_cache_size: usize, boc_size: usize) -> (r: ClientError)
        ensures
            r.code == ErrorCode::InsufficientCacheSize.spec_value(),
            r.data.wf(),
            r.message@ == "Can not insert BOC into cache: insufficient cache size"@,
            r.data@ == cache_size_data(max_cache_size as nat, boc_size as nat),
    {
        let mut e = error(
            ErrorCode::InsufficientCacheSize,
            String::from_str("Can not insert BOC into cache: insufficient cache size"),
        );
        proof {
            reveal_strlit("core_version");
            reveal_strlit("max_cache_size");
            reveal_strlit("boc_size");
            assert("core_version"@ != "max_cache_size"@ && "core_version"@ != "boc_size"@
                && "max_cache_size"@ != "boc_size"@) by {
                assert("core_version"@.len() == 12);
                assert("max_cache_size"@.len() == 14);
                assert("boc_size"@.len() == 8);
            }
        }
        e.data.set("max_cache_size", DataValue::Number(max_cache_size));
        e.data.set("boc_size", DataValue::Number(boc_size));
        assert(e.data@ =~= cache_size_data(max_cache_size as nat, boc_size as nat));
        e
    }

    /// A cache reference with nothing behind it.
    pub fn boc_ref_not_found(boc_ref: &str) -> (r: ClientError)
        ensures
            r.code == ErrorCode::BocRefNotFound.spec_value(),
            r.data.wf(),
            r.message@ == "BOC reference not found in cache"@,
            r.data@ == boc_ref_data(boc_ref@),
    {
        let mut e = error(ErrorCode::BocRefNotFound, String::from_str("BOC reference not found in cache"));
        proof {
            reveal_strlit("core_version");
            reveal_strlit("boc_ref");
            assert("core_version"@.len() != "boc_ref"@.len());
        }
        e.data.set("boc_ref", DataValue::Text(String::from_str(boc_ref)));
        assert(e.data@ =~= boc_ref_data(boc_ref@));
        e
    }

    /// A cache reference that is malformed.
    pub fn invalid_boc_ref<E: std::fmt::Display>(err: E, boc_ref: &str) -> (r: ClientError)
        ensures
            r.code == ErrorCode::InvalidBocRef.spec_value(),
            r.data.wf(),
            shows(&err, "Invalid BOC reference: "@, Seq::empty(), r.message@),
            r.data@ == boc_ref_data(boc_ref@),
    {
        let t = shown(&err);
        let mut m = String::from_str("Invalid BOC reference: ");
        m.append(t.as_str());
        assert(m@ =~= "Invalid BOC reference: "@ + t@ + Seq::empty());
        let mut e = error(ErrorCode::InvalidBocRef, m);
        proof {
            reveal_strlit("core_version");
            reveal_strlit("boc_ref");
            assert("core_version"@.len() != "boc_ref"@.len());
        }
        e.data.set("boc_ref", DataValue::Text(String::from_str(boc_ref)));
        assert(e.data@ =~= boc_ref_data(boc_ref@));
        e
    }
}

} // verus!
