//! Points of the secp256k1 curve, reached through libsecp256k1.
use vstd::prelude::*;
use crate::scalar::scalar_ok;

verus! {

/// The 33-byte compressed serialization of the public point of scalar `k`.
pub uninterp spec fn pubkey_of(k: Seq<u8>) -> Seq<u8>;

/// The compressed serialization of point `p` plus the public point of
/// tweak `t`, when `p` parses as a point, `t` as a nonzero scalar below the
/// group order, and the sum is not the point at infinity.
pub uninterp spec fn point_tweak_add(p: Seq<u8>, t: Seq<u8>) -> Option<Seq<u8>>;

/// Relies on libsecp256k1's `PublicKey::from_secret_key` (with
/// `SecretKey::parse` and `serialize_compressed` to convert): the
/// compressed public key of a valid scalar. `parse` accepts every valid
/// scalar, so the error arm is never taken.
#[verifier::external_body]
pub(crate) fn public_key(k: &[u8; 32]) -> (r: [u8; 33])
    requires
        scalar_ok(k@),
    ensures
        r@ == pubkey_of(k@),
{
    match libsecp256k1::SecretKey::parse(k) {
        Ok(sk) => libsecp256k1::PublicKey::from_secret_key(&sk).serialize_compressed(),
        Err(_) => [0u8; 33],
    }
}

/// Relies on libsecp256k1's `PublicKey::tweak_add_assign` (with
/// `parse_compressed`, `SecretKey::parse` and `serialize_compressed` to
/// convert): the sum of a point and the public point of a tweak, or `None`
/// where one of them fails.
#[verifier::external_body]
pub(crate) fn tweak_add(p: &[u8; 33], t: &[u8; 32]) -> (r: Option<[u8; 33]>)
    ensures
        r is Some <==> point_tweak_add(p@, t@) is Some,
        r is Some ==> r->0@ == point_tweak_add(p@, t@)->0,
{
    let mut pk = match libsecp256k1::PublicKey::parse_compressed(p) {
        Ok(x) => x,
        Err(_) => return None,
    };
    let sk = match libsecp256k1::SecretKey::parse(t) {
        Ok(x) => x,
        Err(_) => return None,
    };
    match pk.tweak_add_assign(&sk) {
        Ok(()) => Some(pk.serialize_compressed()),
        Err(_) => None,
    }
}

} // verus!
