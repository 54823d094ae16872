//! Fixed-size owned secrets that are wiped with zeros when released.
use vstd::prelude::*;
use zeroize::Zeroize;
use crate::errors::{ClientError, ClientResult, Error, ErrorCode};
use crate::text::{decimal, joined};

verus! {

/// Exactly `N` secret bytes. The bytes are overwritten with zeros when the
/// buffer is dropped; a copy is made only by an explicit `clone`.
pub struct SecretBufConst<const N: usize>(pub [u8; N]);

impl<const N: usize> View for SecretBufConst<N> {
    type V = Seq<u8>;

    open spec fn view(&self) -> Seq<u8> {
        self.0@
    }
}

/// Relies on zeroize's `Zeroize` for byte arrays: every element is set to
/// zero, the array keeps its length.
#[verifier::external_body]
fn zeroize_array<const N: usize>(a: &mut [u8; N])
    ensures
        final(a)@ == Seq::new(N as nat, |i: int| 0u8),
{
    a.zeroize();
}

impl<const N: usize> SecretBufConst<N> {
    /// A buffer holding `data`.
    pub fn from(data: [u8; N]) -> (r: Self)
        ensures
            r@ == data@,
    {
        SecretBufConst(data)
    }

    /// A buffer of zeros.
    pub fn default() -> (r: Self)
        ensures
            r@ == Seq::new(N as nat, |i: int| 0u8),
    {
        let a = [0u8; N];
        assert(a@ =~= Seq::new(N as nat, |i: int| 0u8));
        SecretBufConst(a)
    }

    /// A read-only view of the bytes, for as long as the buffer lives.
    pub fn as_bytes(&self) -> (r: &[u8])
        ensures
            r@ == self@,
    {
        self.0.as_slice()
    }

    /// An explicit copy of the secret.
    pub fn duplicate(&self) -> (r: Self)
        ensures
            r@ == self@,
    {
        SecretBufConst(self.0)
    }

    /// Overwrites every byte with zero.
    pub fn wipe(&mut self)
        ensures
            final(self)@ == Seq::new(N as nat, |i: int| 0u8),
    {
        zeroize_array(&mut self.0);
    }
}

impl<const N: usize> Drop for SecretBufConst<N> {
    /// Relies on zeroize's `Zeroize` for byte arrays to wipe the secret.
    #[verifier::external_body]
    fn drop(&mut self)
        opens_invariants none
        no_unwind
    {
        self.0.zeroize();
    }
}

/// A 192-bit secret.
pub type Key192 = SecretBufConst<24>;
/// A 256-bit secret.
pub type Key256 = SecretBufConst<32>;
/// A 264-bit secret.
pub type Key264 = SecretBufConst<33>;
/// A 512-bit secret.
pub type Key512 = SecretBufConst<64>;

/// The error for a slice of `actual` bytes where `expected` were needed.
pub open spec fn is_key_size_error(e: ClientError, actual: nat, expected: nat) -> bool {
    e.code == ErrorCode::InvalidKeySize.spec_value()
        && e.message@ == "Invalid key size "@ + decimal(actual) + ". Expected "@ + joined(seq![expected as usize], " or "@) + "."@
}

/// Copies `slice` into a new secret buffer of `N` bytes; a slice of another
/// length is refused.
pub fn key_from_slice<const N: usize>(slice: &[u8]) -> (r: ClientResult<SecretBufConst<N>>)
    ensures
        slice@.len() == N ==> r is Ok && r->Ok_0@ == slice@,
        slice@.len() != N ==> r is Err && is_key_size_error(r->Err_0, slice@.len(), N as nat),
{
    if slice.len() != N {
        let expected: [usize; 1] = [N];
        assert(expected@ =~= seq![N]);
        return Err(Error::invalid_key_size(slice.len(), expected.as_slice()));
    }
    let mut key = SecretBufConst::<N>::default();
    let mut i: usize = 0;
    while i < N
        invariant
            i <= N,
            slice@.len() == N,
            key@.len() == N,
            forall|j: int| 0 <= j < i ==> key@[j] == slice@[j],
        decreases N - i,
    {
        key.0[i] = slice[i];
        i += 1;
    }
    assert(key@ =~= slice@);
    Ok(key)
}

/// A 512-bit secret copied from `slice`.
pub fn key512(slice: &[u8]) -> (r: ClientResult<Key512>)
    ensures
        slice@.len() == 64 ==> r is Ok && r->Ok_0@ == slice@,
        slice@.len() != 64 ==> r is Err && is_key_size_error(r->Err_0, slice@.len(), 64),
{
    key_from_slice(slice)
}

/// A 256-bit secret copied from `slice`.
pub fn key256(slice: &[u8]) -> (r: ClientResult<Key256>)
    ensures
        slice@.len() == 32 ==> r is Ok && r->Ok_0@ == slice@,
        slice@.len() != 32 ==> r is Err && is_key_size_error(r->Err_0, slice@.len(), 32),
{
    key_from_slice(slice)
}

} // verus!
