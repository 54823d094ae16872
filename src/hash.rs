//! Hash and message-authentication primitives.
use vstd::prelude::*;
use hmac::digest::Digest;
use hmac::Mac;

verus! {

/// The SHA-256 digest of a byte string.
pub uninterp spec fn sha256_of(data: Seq<u8>) -> Seq<u8>;

/// The HMAC-SHA-512 tag of `msg` under `key`.
pub uninterp spec fn hmac_sha512_of(key: Seq<u8>, msg: Seq<u8>) -> Seq<u8>;

/// Relies on sha2's `Sha256`: the 32-byte digest of `bytes`.
#[verifier::external_body]
pub fn sha256(bytes: &[u8]) -> (r: Vec<u8>)
    ensures
        r@ == sha256_of(bytes@),
        r@.len() == 32,
{
    let mut hasher = sha2::Sha256::new();
    hasher.update(bytes);
    hasher.finalize().to_vec()
}

/// Relies on hmac's `Hmac<Sha512>`: the 64-byte tag of `msg` under `key`.
/// `new_from_slice` accepts a key of any length, so the error arm is never
/// taken.
#[verifier::external_body]
pub fn hmac_sha512(key: &[u8], msg: &[u8]) -> (r: Vec<u8>)
    ensures
        r@ == hmac_sha512_of(key@, msg@),
        r@.len() == 64,
{
    match <hmac::Hmac<sha2::Sha512> as Mac>::new_from_slice(key) {
        Ok(mut mac) => {
            mac.update(msg);
            mac.finalize().into_bytes().to_vec()
        },
        Err(_) => Vec::new(),
    }
}


/// Bytewise exclusive or of two byte strings of equal length.
pub open spec fn xor_bytes(a: Seq<u8>, b: Seq<u8>) -> Seq<u8> {
    Seq::new(a.len(), |k: int| a[k] ^ b[k])
}

/// The `i`-th chained tag of the first PBKDF2 block: the tag of the salt
/// followed by the block number 1, then the tag of the previous tag.
pub open spec fn pbkdf2_u(password: Seq<u8>, salt: Seq<u8>, i: nat) -> Seq<u8>
    decreases i,
{
    if i <= 1 {
        hmac_sha512_of(password, salt + seq![0u8, 0u8, 0u8, 1u8])
    } else {
        hmac_sha512_of(password, pbkdf2_u(password, salt, (i - 1) as nat))
    }
}

/// The first PBKDF2-HMAC-SHA-512 block after `rounds` rounds: the
/// exclusive or of the first `rounds` chained tags.
pub open spec fn pbkdf2_block(password: Seq<u8>, salt: Seq<u8>, rounds: nat) -> Seq<u8>
    decreases rounds,
{
    if rounds <= 1 {
        pbkdf2_u(password, salt, 1)
    } else {
        xor_bytes(pbkdf2_block(password, salt, (rounds - 1) as nat), pbkdf2_u(password, salt, rounds))
    }
}

/// The 64-byte PBKDF2-HMAC-SHA-512 key of `password` and `salt` after
/// `rounds` rounds.
pub fn pbkdf2_hmac_sha512(password: &[u8], salt: &[u8], rounds: u32) -> (r: Vec<u8>)
    requires
        rounds >= 1,
    ensures
        r@ == pbkdf2_block(password@, salt@, rounds as nat),
        r@.len() == 64,
{
    let mut block: Vec<u8> = Vec::new();
    let mut k: usize = 0;
    while k < salt.len()
        invariant
            k <= salt@.len(),
            block@ == salt@.take(k as int),
        decreases salt@.len() - k,
    {
        block.push(salt[k]);
        assert(salt@.take(k + 1) =~= salt@.take(k as int).push(salt@[k as int]));
        k += 1;
    }
    block.push(0u8);
    block.push(0u8);
    block.push(0u8);
    block.push(1u8);
    assert(block@ =~= salt@ + seq![0u8, 0u8, 0u8, 1u8]);
    let mut u = hmac_sha512(password, block.as_slice());
    let mut t: Vec<u8> = Vec::new();
    let mut k: usize = 0;
    while k < u.len()
        invariant
            k <= u@.len(),
            t@ == u@.take(k as int),
        decreases u@.len() - k,
    {
        t.push(u[k]);
        assert(u@.take(k + 1) =~= u@.take(k as int).push(u@[k as int]));
        k += 1;
    }
    assert(t@ =~= u@);
    let mut i: u32 = 1;
    while i < rounds
        invariant
            1 <= i <= rounds,
            u@ == pbkdf2_u(password@, salt@, i as nat),
            t@ == pbkdf2_block(password@, salt@, i as nat),
            u@.len() == 64,
            t@.len() == 64,
        decreases rounds - i,
    {
        u = hmac_sha512(password, u.as_slice());
        let ghost t0 = t@;
        let mut k: usize = 0;
        while k < 64
            invariant
                k <= 64,
                t@.len() == 64,
                u@.len() == 64,
                forall|j: int| 0 <= j < k ==> t@[j] == t0[j] ^ u@[j],
                forall|j: int| k <= j < 64 ==> t@[j] == t0[j],
            decreases 64 - k,
        {
            let x = t[k] ^ u[k];
            t.set(k, x);
            k += 1;
        }
        i += 1;
        assert(t@ =~= xor_bytes(t0, u@));
    }
    t
}

} // verus!
