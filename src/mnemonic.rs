//! The mnemonic engine: entropy to word indices and back, checksums,
//! dictionaries, phrase validation and seed stretching.
use vstd::prelude::*;
use crate::errors::{ClientResult, Error, ErrorCode};
use crate::hash::{pbkdf2_block, pbkdf2_hmac_sha512, sha256, sha256_of};
use crate::secret::{key512, Key512, SecretBufConst};
use vstd::utf8::encode_utf8;

verus! {

/// Bit `i` of the byte string `e`, most significant bit of each byte first.
pub open spec fn bit_of(e: Seq<u8>, i: int) -> bool {
    (e[i / 8] >> ((7 - i % 8) as u8)) & 1u8 == 1u8
}

/// The bits of a byte string, most significant bit of each byte first.
pub open spec fn bits(e: Seq<u8>) -> Seq<bool> {
    Seq::new(8 * e.len(), |i: int| bit_of(e, i))
}

/// Bit `j` (0 to 10, most significant first) of an 11-bit word index.
pub open spec fn index_bit(v: u16, j: int) -> bool {
    (v >> ((10 - j) as u16)) & 1u16 == 1u16
}

/// The bits of a sequence of 11-bit word indices.
pub open spec fn index_bits(idx: Seq<u16>) -> Seq<bool> {
    Seq::new(11 * idx.len(), |i: int| index_bit(idx[i / 11], i % 11))
}

/// Entropy lengths, in bytes, that a mnemonic can encode.
pub open spec fn entropy_len_ok(n: nat) -> bool {
    n == 16 || n == 20 || n == 24 || n == 28 || n == 32
}

/// Word counts of a mnemonic.
pub open spec fn word_count_ok(n: nat) -> bool {
    n == 12 || n == 15 || n == 18 || n == 21 || n == 24
}

/// The checksum bits of entropy `e`: the first `len(e) / 4` bits of its
/// SHA-256 digest.
pub open spec fn checksum_bits(e: Seq<u8>) -> Seq<bool> {
    bits(sha256_of(e).take(1)).take((e.len() / 4) as int)
}

/// The bits that the words of the mnemonic of `e` encode: the entropy, then
/// its checksum.
pub open spec fn phrase_bits(e: Seq<u8>) -> Seq<bool> {
    bits(e) + checksum_bits(e)
}

proof fn lemma_shift_in(v: u16, b: u16, k: u16)
    requires
        v < 0x8000,
        b <= 1,
        k < 15,
    ensures
        (((v << 1u16) | b) >> ((k + 1) as u16)) & 1u16 == (v >> k) & 1u16,
        ((v << 1u16) | b) & 1u16 == b,
{
    assert((((v << 1u16) | b) >> ((k + 1) as u16)) & 1u16 == (v >> k) & 1u16) by (bit_vector)
        requires
            v < 0x8000,
            b <= 1,
            k < 15,
    ;
    assert(((v << 1u16) | b) & 1u16 == b) by (bit_vector)
        requires
            b <= 1,
    ;
}

proof fn lemma_shift_bound(v: u16, b: u16, j: u16)
    requires
        j < 15,
        v < (1u16 << j),
        b <= 1,
    ensures
        ((v << 1u16) | b) < (1u16 << ((j + 1) as u16)),
        v < 0x8000,
{
    assert(((v << 1u16) | b) < (1u16 << ((j + 1) as u16)) && v < 0x8000) by (bit_vector)
        requires
            j < 15,
            v < (1u16 << j),
            b <= 1,
    ;
}

proof fn lemma_div11(i: int, w: int)
    requires
        0 <= w,
        11 * w <= i < 11 * w + 11,
    ensures
        i / 11 == w,
        i % 11 == i - 11 * w,
{
    assert(i / 11 == w) by (nonlinear_arith)
        requires
            0 <= w,
            11 * w <= i < 11 * w + 11,
    ;
}

proof fn lemma_div11_below(i: int, w: int)
    requires
        0 <= i < 11 * w,
    ensures
        i / 11 < w,
{
    assert(i / 11 < w) by (nonlinear_arith)
        requires
            0 <= i < 11 * w,
    ;
}

fn get_bit(e: &[u8], p: usize) -> (r: u16)
    requires
        p < 8 * e@.len(),
    ensures
        r <= 1,
        (r == 1) == bit_of(e@, p as int),
{
    let x = e[p / 8];
    let s = (7 - p % 8) as u8;
    let b = (x >> s) & 1u8;
    assert(b <= 1) by (bit_vector)
        requires
            b == (x >> s) & 1u8,
    ;
    b as u16
}

/// The word indices of the mnemonic of entropy `e`: its bits and then its
/// checksum bits, in groups of 11.
pub fn entropy_to_indices(e: &[u8]) -> (r: Vec<u16>)
    requires
        entropy_len_ok(e@.len()),
    ensures
        r@.len() * 32 == e@.len() * 24,
        index_bits(r@) == phrase_bits(e@),
        forall|w: int| 0 <= w < r@.len() ==> r@[w] < 2048,
{
    let h = sha256(e);
    let hs = h.as_slice();
    let n = e.len();
    let words = n * 3 / 4;
    let total = n * 8 + n / 4;
    let ghost pb = phrase_bits(e@);
    assert(pb.len() == total);
    assert(total == 11 * words);
    let mut r: Vec<u16> = Vec::new();
    let mut w: usize = 0;
    while w < words
        invariant
            n == e@.len(),
            entropy_len_ok(n as nat),
            words == n * 3 / 4,
            total == n * 8 + n / 4,
            total == 11 * words,
            pb == phrase_bits(e@),
            hs@ == sha256_of(e@),
            hs@.len() == 32,
            w <= words,
            r@.len() == w,
            forall|k: int| 0 <= k < w ==> r@[k] < 2048,
            forall|i: int| 0 <= i < 11 * w ==> index_bit(r@[i / 11], i % 11) == pb[i],
        decreases words - w,
    {
        let mut v: u16 = 0;
        let mut j: u16 = 0;
        let base = 11 * w;
        assert(base + 11 <= total) by (nonlinear_arith)
            requires
                base == 11 * w,
                w < words,
                total == 11 * words,
        ;
        assert((1u16 << 0u16) == 1) by (bit_vector);
        while j < 11
            invariant
                n == e@.len(),
                total == n * 8 + n / 4,
                total == 11 * words,
                entropy_len_ok(n as nat),
                w < words,
                base == 11 * w,
                base + 11 <= total,
                pb == phrase_bits(e@),
                hs@ == sha256_of(e@),
                hs@.len() == 32,
                j <= 11,
                v < (1u16 << j),
                forall|t: int| 0 <= t < j ==> (((v >> ((j - 1 - t) as u16)) & 1u16 == 1u16) == #[trigger] pb[base + t]),
            decreases 11 - j,
        {
            let p = base + j as usize;
            let b = if p < 8 * n {
                get_bit(e, p)
            } else {
                get_bit(hs, p - 8 * n)
            };
            proof {
                assert((b == 1) == pb[p as int]) by {
                    if p < 8 * n {
                    } else {
                        let q = (p - 8 * n) as int;
                        assert(q < 8);
                        assert(q / 8 == 0);
                        assert(hs@.take(1)[0] == hs@[0]);
                        assert(bit_of(hs@, q) == bit_of(hs@.take(1), q));
                        assert(pb[p as int] == checksum_bits(e@)[q]);
                    }
                }
                lemma_shift_bound(v, b, j);
                assert forall|t: int| 0 <= t < j implies (((((v << 1u16) | b) >> ((j - t) as u16)) & 1u16 == 1u16) == #[trigger] pb[base + t]) by {
                    lemma_shift_in(v, b, (j - 1 - t) as u16);
                }
                lemma_shift_in(v, b, 0);
                let nv = (v << 1u16) | b;
                assert(nv >> 0u16 == nv) by (bit_vector);
            }
            v = (v << 1u16) | b;
            j += 1;
        }
        proof {
            assert((1u16 << 11u16) == 2048) by (bit_vector);
            assert(11 * (w + 1) == base + 11);
            assert forall|i: int| 0 <= i < 11 * (w + 1) implies index_bit(r@.push(v)[i / 11], i % 11) == pb[i] by {
                if i >= base {
                    lemma_div11(i, w as int);
                    assert(pb[base + (i - base)] == pb[i]);
                } else {
                    lemma_div11_below(i, w as int);
                }
            }
        }
        r.push(v);
        w += 1;
    }
    assert(index_bits(r@) =~= pb);
    r
}


proof fn lemma_shift_in8(v: u8, b: u8, k: u8)
    requires
        v < 0x80,
        b <= 1,
        k < 7,
    ensures
        (((v << 1u8) | b) >> ((k + 1) as u8)) & 1u8 == (v >> k) & 1u8,
        ((v << 1u8) | b) & 1u8 == b,
        ((v << 1u8) | b) >> 0u8 == ((v << 1u8) | b),
{
    assert((((v << 1u8) | b) >> ((k + 1) as u8)) & 1u8 == (v >> k) & 1u8) by (bit_vector)
        requires
            v < 0x80,
            b <= 1,
            k < 7,
    ;
    assert(((v << 1u8) | b) & 1u8 == b) by (bit_vector)
        requires
            b <= 1,
    ;
    assert(((v << 1u8) | b) >> 0u8 == ((v << 1u8) | b)) by (bit_vector);
}

proof fn lemma_shift_bound8(v: u8, b: u8, j: u8)
    requires
        j < 8,
        v < (1u8 << j),
        b <= 1,
    ensures
        j < 7 ==> ((v << 1u8) | b) < (1u8 << ((j + 1) as u8)),
        v < 0x80,
{
    assert((j < 7 ==> ((v << 1u8) | b) < (1u8 << ((j + 1) as u8))) && v < 0x80) by (bit_vector)
        requires
            j < 8,
            v < (1u8 << j),
            b <= 1,
    ;
}

proof fn lemma_div8(i: int, k: int)
    requires
        0 <= k,
        8 * k <= i < 8 * k + 8,
    ensures
        i / 8 == k,
        i % 8 == i - 8 * k,
{
    assert(i / 8 == k) by (nonlinear_arith)
        requires
            0 <= k,
            8 * k <= i < 8 * k + 8,
    ;
}

proof fn lemma_div8_below(i: int, k: int)
    requires
        0 <= i < 8 * k,
    ensures
        i / 8 < k,
{
    assert(i / 8 < k) by (nonlinear_arith)
        requires
            0 <= i < 8 * k,
    ;
}

fn get_index_bit(idx: &[u16], p: usize) -> (r: u8)
    requires
        p < 11 * idx@.len(),
    ensures
        r <= 1,
        (r == 1) == index_bits(idx@)[p as int],
{
    let x = idx[p / 11];
    let s = (10 - p % 11) as u16;
    let b = (x >> s) & 1u16;
    assert(b <= 1) by (bit_vector)
        requires
            b == (x >> s) & 1u16,
    ;
    b as u8
}

/// The entropy that word indices `idx` encode: the leading bits, before
/// the checksum bits, packed into bytes.
pub fn indices_to_entropy(idx: &[u16]) -> (r: Vec<u8>)
    requires
        word_count_ok(idx@.len()),
    ensures
        r@.len() * 24 == idx@.len() * 32,
        entropy_len_ok(r@.len()),
        bits(r@) == index_bits(idx@).take(8 * r@.len() as int),
{
    let words = idx.len();
    let n = words * 4 / 3;
    let ghost ib = index_bits(idx@);
    assert(8 * n <= 11 * words);
    let mut r: Vec<u8> = Vec::new();
    let mut k: usize = 0;
    while k < n
        invariant
            words == idx@.len(),
            word_count_ok(words as nat),
            n == words * 4 / 3,
            8 * n <= 11 * words,
            ib == index_bits(idx@),
            k <= n,
            r@.len() == k,
            forall|i: int| 0 <= i < 8 * k ==> bit_of(r@, i) == ib[i],
        decreases n - k,
    {
        let mut v: u8 = 0;
        let mut j: u8 = 0;
        let base = 8 * k;
        assert((1u8 << 0u8) == 1) by (bit_vector);
        while j < 8
            invariant
                words == idx@.len(),
                8 * n <= 11 * words,
                k < n,
                base == 8 * k,
                ib == index_bits(idx@),
                j <= 8,
                j < 8 ==> v < (1u8 << j),
                forall|t: int| 0 <= t < j ==> (((v >> ((j - 1 - t) as u8)) & 1u8 == 1u8) == #[trigger] ib[base + t]),
            decreases 8 - j,
        {
            let p = base + j as usize;
            let b = get_index_bit(idx, p);
            proof {
                lemma_shift_bound8(v, b, j);
                {
                    assert forall|t: int| 0 <= t < j implies (((((v << 1u8) | b) >> ((j - t) as u8)) & 1u8 == 1u8) == #[trigger] ib[base + t]) by {
                        lemma_shift_in8(v, b, (j - 1 - t) as u8);
                    }
                    lemma_shift_in8(v, b, 0);
                }
            }
            v = (v << 1u8) | b;
            j += 1;
        }
        proof {
            assert(8 * (k + 1) == base + 8);
            assert forall|i: int| 0 <= i < 8 * (k + 1) implies bit_of(r@.push(v), i) == ib[i] by {
                if i >= base {
                    lemma_div8(i, k as int);
                    assert(ib[base + (i - base)] == ib[i]);
                } else {
                    lemma_div8_below(i, k as int);
                }
            }
        }
        r.push(v);
        k += 1;
    }
    assert(bits(r@) =~= ib.take(8 * r@.len() as int));
    r
}


spec fn byte_bit(x: u8, k: int) -> bool {
    (x >> (k as u8)) & 1u8 == 1u8
}

proof fn lemma_byte_from_bits(x: u8, y: u8)
    requires
        forall|k: int| 0 <= k < 8 ==> #[trigger] byte_bit(x, k) == byte_bit(y, k),
    ensures
        x == y,
{
    assert(byte_bit(x, 0) == byte_bit(y, 0));
    assert(byte_bit(x, 1) == byte_bit(y, 1));
    assert(byte_bit(x, 2) == byte_bit(y, 2));
    assert(byte_bit(x, 3) == byte_bit(y, 3));
    assert(byte_bit(x, 4) == byte_bit(y, 4));
    assert(byte_bit(x, 5) == byte_bit(y, 5));
    assert(byte_bit(x, 6) == byte_bit(y, 6));
    assert(byte_bit(x, 7) == byte_bit(y, 7));
    assert(((x >> 0u8) & 1u8 == 1u8) == ((y >> 0u8) & 1u8 == 1u8));
    assert(((x >> 1u8) & 1u8 == 1u8) == ((y >> 1u8) & 1u8 == 1u8));
    assert(((x >> 2u8) & 1u8 == 1u8) == ((y >> 2u8) & 1u8 == 1u8));
    assert(((x >> 3u8) & 1u8 == 1u8) == ((y >> 3u8) & 1u8 == 1u8));
    assert(((x >> 4u8) & 1u8 == 1u8) == ((y >> 4u8) & 1u8 == 1u8));
    assert(((x >> 5u8) & 1u8 == 1u8) == ((y >> 5u8) & 1u8 == 1u8));
    assert(((x >> 6u8) & 1u8 == 1u8) == ((y >> 6u8) & 1u8 == 1u8));
    assert(((x >> 7u8) & 1u8 == 1u8) == ((y >> 7u8) & 1u8 == 1u8));
    assert(x == y) by (bit_vector)
        requires
            ((x >> 0u8) & 1u8 == 1u8) == ((y >> 0u8) & 1u8 == 1u8),
            ((x >> 1u8) & 1u8 == 1u8) == ((y >> 1u8) & 1u8 == 1u8),
            ((x >> 2u8) & 1u8 == 1u8) == ((y >> 2u8) & 1u8 == 1u8),
            ((x >> 3u8) & 1u8 == 1u8) == ((y >> 3u8) & 1u8 == 1u8),
            ((x >> 4u8) & 1u8 == 1u8) == ((y >> 4u8) & 1u8 == 1u8),
            ((x >> 5u8) & 1u8 == 1u8) == ((y >> 5u8) & 1u8 == 1u8),
            ((x >> 6u8) & 1u8 == 1u8) == ((y >> 6u8) & 1u8 == 1u8),
            ((x >> 7u8) & 1u8 == 1u8) == ((y >> 7u8) & 1u8 == 1u8),
    ;
}

/// Byte strings with the same bits are equal.
pub proof fn lemma_bits_injective(a: Seq<u8>, b: Seq<u8>)
    requires
        a.len() == b.len(),
        bits(a) == bits(b),
    ensures
        a == b,
{
    assert forall|m: int| 0 <= m < a.len() implies a[m] == b[m] by {
        assert forall|k: int| 0 <= k < 8 implies #[trigger] byte_bit(a[m], k) == byte_bit(b[m], k) by {
            let i = 8 * m + (7 - k);
            lemma_div8(i, m);
            assert(i / 8 == m && i % 8 == 7 - k);
            assert(bits(a)[i] == bits(b)[i]);
            assert(bits(a)[i] == bit_of(a, i));
            assert(bits(b)[i] == bit_of(b, i));
            assert(bit_of(a, i) == byte_bit(a[m], k));
            assert(bit_of(b, i) == byte_bit(b[m], k));
        }
        lemma_byte_from_bits(a[m], b[m]);
    }
    assert(a =~= b);
}

/// Decoding the word indices of the mnemonic of `e` gives `e` back.
pub proof fn lemma_entropy_round_trip(e: Seq<u8>, idx: Seq<u16>, r: Seq<u8>)
    requires
        entropy_len_ok(e.len()),
        idx.len() * 32 == e.len() * 24,
        index_bits(idx) == phrase_bits(e),
        r.len() * 24 == idx.len() * 32,
        bits(r) == index_bits(idx).take(8 * r.len() as int),
    ensures
        r == e,
{
    assert(r.len() == e.len());
    assert(bits(r) =~= bits(e));
    lemma_bits_injective(r, e);
}

/// Whether the bits after the first `8 * e.len()` of the word indices are
/// the checksum of `e`.
pub fn checksum_matches(idx: &[u16], e: &[u8]) -> (r: bool)
    requires
        entropy_len_ok(e@.len()),
        idx@.len() * 32 == e@.len() * 24,
    ensures
        r == (index_bits(idx@).skip(8 * e@.len() as int) == checksum_bits(e@)),
{
    let h = sha256(e);
    let hs = h.as_slice();
    let n = e.len();
    let cs = n / 4;
    let ghost ib = index_bits(idx@);
    let ghost cb = checksum_bits(e@);
    assert(ib.len() == 8 * n + cs);
    let mut q: usize = 0;
    while q < cs
        invariant
            n == e@.len(),
            cs == n / 4,
            entropy_len_ok(n as nat),
            ib == index_bits(idx@),
            ib.len() == 8 * n + cs,
            cb == checksum_bits(e@),
            hs@ == sha256_of(e@),
            hs@.len() == 32,
            q <= cs,
            forall|t: int| 0 <= t < q ==> ib[8 * n + t] == cb[t],
        decreases cs - q,
    {
        let a = get_index_bit(idx, 8 * n + q);
        let b = get_bit(hs, q);
        assert(hs@.take(1)[0] == hs@[0]);
        assert(bit_of(hs@, q as int) == bit_of(hs@.take(1), q as int));
        if (a == 1) != (b == 1) {
            assert(ib.skip(8 * n as int)[q as int] != cb[q as int]);
            return false;
        }
        q += 1;
    }
    assert(ib.skip(8 * n as int) =~= cb);
    true
}

/// The word indices are those of a mnemonic: some entropy of a supported
/// length and its checksum have these bits.
pub open spec fn valid_indices(idx: Seq<u16>) -> bool {
    exists|e: Seq<u8>| entropy_len_ok(e.len()) && idx.len() * 32 == e.len() * 24 && #[trigger] phrase_bits(e) == index_bits(idx)
}

/// The entropy of a mnemonic given by its word indices; fails when the word
/// count is not supported or the checksum does not match.
pub fn indices_to_checked_entropy(idx: &[u16]) -> (r: ClientResult<Vec<u8>>)
    ensures
        r is Ok <==> word_count_ok(idx@.len()) && valid_indices(idx@),
        r is Ok ==> index_bits(idx@) == phrase_bits(r->Ok_0@) && idx@.len() * 32 == r->Ok_0@.len() * 24,
        !word_count_ok(idx@.len()) ==> r is Err && r->Err_0.code == ErrorCode::Bip39InvalidWordCount.spec_value(),
        word_count_ok(idx@.len()) && !valid_indices(idx@) ==> r is Err && r->Err_0.code == ErrorCode::Bip39InvalidPhrase.spec_value(),
{
    let count = idx.len();
    if count != 12 && count != 15 && count != 18 && count != 21 && count != 24 {
        let shown: u8 = if count > 255 { 255 } else { count as u8 };
        return Err(Error::bip39_invalid_word_count(shown));
    }
    let e = indices_to_entropy(idx);
    let ok = checksum_matches(idx, e.as_slice());
    proof {
        let ib = index_bits(idx@);
        assert(ib =~= ib.take(8 * e@.len() as int) + ib.skip(8 * e@.len() as int));
        if ok {
            assert(ib =~= phrase_bits(e@));
        }
        if valid_indices(idx@) {
            let w = choose|w: Seq<u8>| entropy_len_ok(w.len()) && idx@.len() * 32 == w.len() * 24 && #[trigger] phrase_bits(w) == index_bits(idx@);
            lemma_entropy_round_trip(w, idx@, e@);
            assert(ib.skip(8 * e@.len() as int) =~= checksum_bits(e@));
        }
    }
    if !ok {
        return Err(Error::bip39_invalid_phrase("checksum does not match"));
    }
    Ok(e)
}


/// A word list of a mnemonic dictionary: 2048 distinct words, a word's
/// position being the 11-bit value it stands for.
pub struct Dictionary {
    words: Vec<String>,
}

/// The number of words of a dictionary.
pub const DICTIONARY_LEN: usize = 2048;

/// The words are pairwise distinct.
pub open spec fn distinct_words(d: Seq<Seq<char>>) -> bool {
    forall|i: int, j: int| 0 <= i < j < d.len() ==> #[trigger] d[i] != #[trigger] d[j]
}

/// The position of `w` in the word list `d`.
pub open spec fn position(d: Seq<Seq<char>>, w: Seq<char>) -> int {
    choose|i: int| 0 <= i < d.len() && d[i] == w
}

/// The 11-bit values that the words of a phrase stand for in `d`.
pub open spec fn positions(d: Seq<Seq<char>>, phrase: Seq<Seq<char>>) -> Seq<u16> {
    phrase.map_values(|w: Seq<char>| position(d, w) as u16)
}

/// Every word of the phrase is in `d`.
pub open spec fn all_known(d: Seq<Seq<char>>, phrase: Seq<Seq<char>>) -> bool {
    forall|k: int| 0 <= k < phrase.len() ==> d.contains(#[trigger] phrase[k])
}

/// The words of a phrase as character sequences.
pub open spec fn words_view(p: Seq<String>) -> Seq<Seq<char>> {
    p.map_values(|w: String| w@)
}

impl View for Dictionary {
    type V = Seq<Seq<char>>;

    closed spec fn view(&self) -> Seq<Seq<char>> {
        words_view(self.words@)
    }
}

impl Dictionary {
    /// 2048 distinct words.
    pub open spec fn wf(&self) -> bool {
        self@.len() == DICTIONARY_LEN && distinct_words(self@)
    }

    /// A dictionary with id `id` made of `words`; refused unless there are
    /// exactly 2048 words, all distinct.
    pub fn new(id: u8, words: Vec<String>) -> (r: ClientResult<Dictionary>)
        ensures
            r is Ok <==> words@.len() == DICTIONARY_LEN && distinct_words(words_view(words@)),
            r is Ok ==> r->Ok_0@ == words_view(words@) && r->Ok_0.wf(),
            r is Err ==> r->Err_0.code == ErrorCode::Bip39InvalidDictionary.spec_value(),
    {
        let ghost d = words_view(words@);
        if words.len() != DICTIONARY_LEN {
            return Err(Error::bip39_invalid_dictionary(id));
        }
        let mut i: usize = 0;
        while i < words.len()
            invariant
                d == words_view(words@),
                i <= words@.len(),
                forall|a: int, b: int| 0 <= a < b < d.len() && a < i ==> #[trigger] d[a] != #[trigger] d[b],
            decreases words@.len() - i,
        {
            let mut j: usize = i + 1;
            while j < words.len()
                invariant
                    d == words_view(words@),
                    i < words@.len(),
                    i + 1 <= j <= words@.len(),
                    forall|a: int, b: int| 0 <= a < b < d.len() && a < i ==> #[trigger] d[a] != #[trigger] d[b],
                    forall|b: int| i < b < j ==> d[i as int] != #[trigger] d[b],
                decreases words@.len() - j,
            {
                if words[i].eq(&words[j]) {
                    assert(d[i as int] == d[j as int]);
                    return Err(Error::bip39_invalid_dictionary(id));
                }
                j += 1;
            }
            i += 1;
        }
        Ok(Dictionary { words })
    }

    /// The word at position `i`.
    pub fn word(&self, i: u16) -> (r: &String)
        requires
            self.wf(),
            i < 2048,
        ensures
            r@ == self@[i as int],
    {
        &self.words[i as usize]
    }

    /// The position of `w`, if it is a word of the dictionary.
    pub fn index_of(&self, w: &String) -> (r: Option<u16>)
        requires
            self.wf(),
        ensures
            r is Some <==> self@.contains(w@),
            r is Some ==> r->0 < 2048 && self@[r->0 as int] == w@ && position(self@, w@) == r->0 as int,
    {
        let mut i: usize = 0;
        while i < self.words.len()
            invariant
                self.wf(),
                i <= self@.len(),
                forall|k: int| 0 <= k < i ==> self@[k] != w@,
            decreases self@.len() - i,
        {
            assert(self@[i as int] == self.words@[i as int]@);
            if self.words[i].eq(w) {
                proof {
                    let p = position(self@, w@);
                    assert(self@.contains(w@));
                    assert(0 <= p < self@.len() && self@[p] == w@);
                    if p != i {
                        if p < i {
                        } else {
                            assert(self@[i as int] != self@[p]);
                        }
                    }
                }
                return Some(i as u16);
            }
            i += 1;
        }
        None
    }
}

/// The word indices of a phrase, or `None` when a word is not in the
/// dictionary.
pub fn phrase_to_indices(words: &[String], dict: &Dictionary) -> (r: Option<Vec<u16>>)
    requires
        dict.wf(),
    ensures
        r is Some <==> all_known(dict@, words_view(words@)),
        r is Some ==> r->0@ == positions(dict@, words_view(words@)),
{
    let ghost p = words_view(words@);
    let mut r: Vec<u16> = Vec::new();
    let mut k: usize = 0;
    while k < words.len()
        invariant
            dict.wf(),
            p == words_view(words@),
            k <= words@.len(),
            r@ == positions(dict@, p.take(k as int)),
            all_known(dict@, p.take(k as int)),
        decreases words@.len() - k,
    {
        match dict.index_of(&words[k]) {
            None => {
                assert(!dict@.contains(p[k as int]));
                return None;
            },
            Some(i) => {
                r.push(i);
                assert(p.take(k + 1) =~= p.take(k as int).push(p[k as int]));
                assert(r@ =~= positions(dict@, p.take(k + 1)));
            },
        }
        k += 1;
    }
    assert(p.take(k as int) =~= p);
    Some(r)
}

/// The words of the mnemonic of entropy `e` in `dict`; entropy of an
/// unsupported length is refused.
pub fn from_entropy(e: &[u8], dict: &Dictionary) -> (r: ClientResult<Vec<String>>)
    requires
        dict.wf(),
    ensures
        r is Ok <==> entropy_len_ok(e@.len()),
        r is Ok ==> {
            let p = words_view(r->Ok_0@);
            &&& p.len() * 32 == e@.len() * 24
            &&& all_known(dict@, p)
            &&& index_bits(positions(dict@, p)) == phrase_bits(e@)
        },
        r is Err ==> r->Err_0.code == ErrorCode::Bip39InvalidEntropy.spec_value(),
{
    let n = e.len();
    if n != 16 && n != 20 && n != 24 && n != 28 && n != 32 {
        return Err(Error::bip39_invalid_entropy("entropy must be 16, 20, 24, 28 or 32 bytes"));
    }
    let idx = entropy_to_indices(e);
    let mut out: Vec<String> = Vec::new();
    let mut k: usize = 0;
    while k < idx.len()
        invariant
            dict.wf(),
            k <= idx@.len(),
            forall|w: int| 0 <= w < idx@.len() ==> idx@[w] < 2048,
            out@.len() == k,
            forall|w: int| 0 <= w < k ==> (#[trigger] out@[w])@ == dict@[idx@[w] as int],
        decreases idx@.len() - k,
    {
        let w = dict.word(idx[k]).clone();
        out.push(w);
        k += 1;
    }
    proof {
        let p = words_view(out@);
        assert forall|w: int| 0 <= w < p.len() implies dict@.contains(#[trigger] p[w]) by {
            assert(p[w] == dict@[idx@[w] as int]);
        }
        assert forall|w: int| 0 <= w < p.len() implies #[trigger] positions(dict@, p)[w] == idx@[w] by {
            let q = position(dict@, p[w]);
            assert(p[w] == dict@[idx@[w] as int]);
            assert(dict@.contains(p[w]));
            assert(0 <= q < dict@.len() && dict@[q] == p[w]);
            if q != idx@[w] as int {
                if q < idx@[w] as int {
                    assert(dict@[q] != dict@[idx@[w] as int]);
                } else {
                    assert(dict@[idx@[w] as int] != dict@[q]);
                }
            }
        }
        assert(positions(dict@, p) =~= idx@);
    }
    Ok(out)
}

/// The phrase is a mnemonic in `dict`: a supported word count, known words
/// and a matching checksum.
pub open spec fn valid_phrase(dict: Seq<Seq<char>>, p: Seq<Seq<char>>) -> bool {
    word_count_ok(p.len()) && all_known(dict, p) && valid_indices(positions(dict, p))
}

/// The entropy that a phrase encodes; fails with a word-count error when
/// the number of words is not supported, and with a phrase error when a
/// word is unknown or the checksum does not match.
pub fn mnemonic_to_entropy(words: &[String], dict: &Dictionary) -> (r: ClientResult<Vec<u8>>)
    requires
        dict.wf(),
    ensures
        r is Ok <==> valid_phrase(dict@, words_view(words@)),
        r is Ok ==> index_bits(positions(dict@, words_view(words@))) == phrase_bits(r->Ok_0@)
            && words@.len() * 32 == r->Ok_0@.len() * 24,
        !word_count_ok(words@.len()) ==> r is Err && r->Err_0.code
            == ErrorCode::Bip39InvalidWordCount.spec_value(),
        word_count_ok(words@.len()) && !valid_phrase(dict@, words_view(words@)) ==> r is Err
            && r->Err_0.code == ErrorCode::Bip39InvalidPhrase.spec_value(),
{
    let count = words.len();
    if count != 12 && count != 15 && count != 18 && count != 21 && count != 24 {
        let shown: u8 = if count > 255 { 255 } else { count as u8 };
        return Err(Error::bip39_invalid_word_count(shown));
    }
    match phrase_to_indices(words, dict) {
        None => Err(Error::bip39_invalid_phrase("unknown word")),
        Some(idx) => indices_to_checked_entropy(idx.as_slice()),
    }
}

/// Checks that a phrase is a mnemonic in `dict`.
pub fn validate(words: &[String], dict: &Dictionary) -> (r: ClientResult<()>)
    requires
        dict.wf(),
    ensures
        r is Ok <==> valid_phrase(dict@, words_view(words@)),
        !word_count_ok(words@.len()) ==> r is Err && r->Err_0.code
            == ErrorCode::Bip39InvalidWordCount.spec_value(),
        word_count_ok(words@.len()) && !valid_phrase(dict@, words_view(words@)) ==> r is Err
            && r->Err_0.code == ErrorCode::Bip39InvalidPhrase.spec_value(),
{
    match mnemonic_to_entropy(words, dict) {
        Ok(_) => Ok(()),
        Err(e) => Err(e),
    }
}

/// Recovering the entropy of the mnemonic made from `e` gives `e`: when a
/// phrase has the bits of `e` and decodes to `r`, then `r` is `e`.
pub proof fn lemma_mnemonic_round_trip(dict: Seq<Seq<char>>, p: Seq<Seq<char>>, e: Seq<u8>, r: Seq<u8>)
    requires
        index_bits(positions(dict, p)) == phrase_bits(e),
        index_bits(positions(dict, p)) == phrase_bits(r),
        p.len() * 32 == e.len() * 24,
        p.len() * 32 == r.len() * 24,
    ensures
        r == e,
{
    assert(bits(r) =~= phrase_bits(r).take(8 * r.len() as int));
    assert(bits(e) =~= phrase_bits(e).take(8 * e.len() as int));
    lemma_bits_injective(r, e);
}

/// The phrase made from supported entropy is valid.
pub proof fn lemma_generated_is_valid(dict: Seq<Seq<char>>, p: Seq<Seq<char>>, e: Seq<u8>)
    requires
        entropy_len_ok(e.len()),
        p.len() * 32 == e.len() * 24,
        all_known(dict, p),
        index_bits(positions(dict, p)) == phrase_bits(e),
    ensures
        valid_phrase(dict, p),
{
    assert(positions(dict, p).len() == p.len());
    assert(entropy_len_ok(e.len()) && positions(dict, p).len() * 32 == e.len() * 24 && phrase_bits(e) == index_bits(positions(dict, p)));
}

/// Dropping one or two words from a valid phrase leaves a word count that
/// is not supported, so the shortened phrase is not valid.
pub proof fn lemma_truncated_is_invalid(dict: Seq<Seq<char>>, p: Seq<Seq<char>>, k: int)
    requires
        valid_phrase(dict, p),
        1 <= k <= 2,
    ensures
        !valid_phrase(dict, p.take(p.len() - k)),
{
}


/// The words of a phrase separated by single spaces.
pub open spec fn phrase_text(p: Seq<Seq<char>>) -> Seq<char>
    decreases p.len(),
{
    if p.len() == 0 {
        Seq::empty()
    } else if p.len() == 1 {
        p[0]
    } else {
        phrase_text(p.drop_last()) + " "@ + p.last()
    }
}

/// The number of key-stretching rounds of seed derivation.
pub const SEED_ROUNDS: u32 = 2048;

/// The seed of a phrase: PBKDF2-HMAC-SHA-512 over the UTF-8 text of the
/// phrase, salted with "mnemonic" followed by the passphrase.
pub open spec fn seed_of(p: Seq<Seq<char>>, passphrase: Seq<char>) -> Seq<u8> {
    pbkdf2_block(encode_utf8(phrase_text(p)), encode_utf8("mnemonic"@ + passphrase), SEED_ROUNDS as nat)
}

/// The words of a phrase joined by single spaces.
pub fn join_phrase(words: &[String]) -> (r: String)
    ensures
        r@ == phrase_text(words_view(words@)),
{
    let ghost p = words_view(words@);
    let mut r = String::new();
    let mut k: usize = 0;
    while k < words.len()
        invariant
            p == words_view(words@),
            k <= words@.len(),
            r@ == phrase_text(p.take(k as int)),
        decreases words@.len() - k,
    {
        if k > 0 {
            r.append(" ");
        }
        r.append(words[k].as_str());
        proof {
            let t = p.take(k + 1);
            assert(t.drop_last() =~= p.take(k as int));
            if k == 0 {
                assert(phrase_text(p.take(0)) =~= Seq::empty());
                assert(r@ =~= p[0]);
            }
        }
        assert(r@ =~= phrase_text(p.take(k + 1)));
        k += 1;
    }
    assert(p.take(k as int) =~= p);
    r
}

/// The 512-bit seed of a phrase and a passphrase.
pub fn to_seed(words: &[String], passphrase: &str) -> (r: Key512)
    ensures
        r@ == seed_of(words_view(words@), passphrase@),
{
    let phrase = join_phrase(words);
    let mut salt = String::from_str("mnemonic");
    salt.append(passphrase);
    let seed = pbkdf2_hmac_sha512(phrase.as_str().as_bytes(), salt.as_str().as_bytes(), SEED_ROUNDS);
    match key512(seed.as_slice()) {
        Ok(k) => k,
        Err(_) => SecretBufConst::default(),
    }
}

/// Seed derivation is deterministic: the same phrase and passphrase give
/// the same seed.
pub proof fn lemma_seed_deterministic(p: Seq<Seq<char>>, passphrase: Seq<char>, s1: Seq<u8>, s2: Seq<u8>)
    requires
        s1 == seed_of(p, passphrase),
        s2 == seed_of(p, passphrase),
    ensures
        s1 == s2,
{
}

} // verus!
