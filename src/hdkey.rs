//! Hierarchical deterministic keys: the master key of a seed, hardened
//! child derivation, derivation paths.
use vstd::prelude::*;
use vstd::utf8::encode_utf8;
use crate::errors::{ClientResult, Error, ErrorCode};
use crate::hash::{hmac_sha512, hmac_sha512_of};
use crate::curve::{point_tweak_add, pubkey_of, public_key, tweak_add};
use crate::scalar::{add_mod_order, be_value, below_order, check_scalar, is_zero, order, scalar_ok};
use crate::secret::{Key256, Key512, SecretBufConst};

verus! {

/// The key material of an extended key.
pub enum KeyMaterial {
    /// A 32-byte private scalar.
    Private(Key256),
    /// A 33-byte serialized public key, with no private material.
    Public(Vec<u8>),
}

/// A key with its chain code and its place in the key tree.
pub struct ExtendedKey {
    pub key: KeyMaterial,
    pub chain_code: Key256,
    pub depth: u8,
    pub child_index: u32,
    pub hardened: bool,
}

/// The mathematical value of an extended key.
pub struct KeyView {
    pub private: Option<Seq<u8>>,
    pub public: Seq<u8>,
    pub chain_code: Seq<u8>,
    pub depth: nat,
    pub child_index: u32,
    pub hardened: bool,
}

impl ExtendedKey {
    /// A root key with no private material, from a 33-byte serialized
    /// public key and a chain code; a key of another length is refused.
    pub fn from_public(public_key: Vec<u8>, chain_code: Key256) -> (r: ClientResult<ExtendedKey>)
        ensures
            r is Ok <==> public_key@.len() == 33,
            r is Ok ==> r->Ok_0@.private is None && r->Ok_0@.public == public_key@
                && r->Ok_0@.chain_code == chain_code@ && r->Ok_0@.depth == 0 && key_ok(r->Ok_0@),
            r is Err ==> r->Err_0.code == ErrorCode::InvalidKeySize.spec_value(),
    {
        if public_key.len() != 33 {
            let expected: [usize; 1] = [33];
            return Err(Error::invalid_key_size(public_key.len(), expected.as_slice()));
        }
        Ok(
            ExtendedKey {
                key: KeyMaterial::Public(public_key),
                chain_code,
                depth: 0,
                child_index: 0,
                hardened: false,
            },
        )
    }

    /// A root key from a private scalar and a chain code; a scalar that is
    /// zero or not below the group order is refused.
    pub fn from_private(private_key: Key256, chain_code: Key256) -> (r: ClientResult<ExtendedKey>)
        ensures
            r is Ok <==> scalar_ok(private_key@),
            r is Ok ==> r->Ok_0@.private == Some(private_key@) && r->Ok_0@.chain_code == chain_code@
                && r->Ok_0@.depth == 0 && key_ok(r->Ok_0@),
            r is Err ==> r->Err_0.code == ErrorCode::Bip32InvalidKey.spec_value(),
    {
        if !check_scalar(&private_key.0) {
            return Err(Error::bip32_invalid_key("private scalar is out of range"));
        }
        Ok(
            ExtendedKey {
                key: KeyMaterial::Private(private_key),
                chain_code,
                depth: 0,
                child_index: 0,
                hardened: false,
            },
        )
    }

    /// An explicit copy of the key.
    pub fn duplicate(&self) -> (r: ExtendedKey)
        ensures
            r@ == self@,
    {
        let key = match &self.key {
            KeyMaterial::Private(k) => KeyMaterial::Private(k.duplicate()),
            KeyMaterial::Public(p) => {
                let mut q: Vec<u8> = Vec::new();
                let mut i: usize = 0;
                while i < p.len()
                    invariant
                        i <= p@.len(),
                        q@ == p@.take(i as int),
                    decreases p@.len() - i,
                {
                    q.push(p[i]);
                    assert(p@.take(i + 1) =~= p@.take(i as int).push(p@[i as int]));
                    i += 1;
                }
                assert(q@ =~= p@);
                KeyMaterial::Public(q)
            },
        };
        ExtendedKey {
            key,
            chain_code: self.chain_code.duplicate(),
            depth: self.depth,
            child_index: self.child_index,
            hardened: self.hardened,
        }
    }
}

impl View for ExtendedKey {
    type V = KeyView;

    open spec fn view(&self) -> KeyView {
        KeyView {
            private: match self.key {
                KeyMaterial::Private(k) => Some(k@),
                KeyMaterial::Public(_) => None,
            },
            public: match self.key {
                KeyMaterial::Private(_) => Seq::empty(),
                KeyMaterial::Public(p) => p@,
            },
            chain_code: self.chain_code@,
            depth: self.depth as nat,
            child_index: self.child_index,
            hardened: self.hardened,
        }
    }
}

/// A well-formed key: a valid private scalar, or a 33-byte public key.
pub open spec fn key_ok(k: KeyView) -> bool {
    match k.private {
        Some(p) => scalar_ok(p),
        None => k.public.len() == 33,
    }
}

/// The HMAC key of master key generation.
pub open spec fn master_hmac_key() -> Seq<u8> {
    encode_utf8("Bitcoin seed"@)
}

/// The master key of a seed, if the left half of the seed's tag is a valid
/// scalar.
pub open spec fn master_spec(seed: Seq<u8>) -> Option<KeyView> {
    let tag = hmac_sha512_of(master_hmac_key(), seed);
    if scalar_ok(tag.take(32)) {
        Some(
            KeyView {
                private: Some(tag.take(32)),
                public: Seq::empty(),
                chain_code: tag.skip(32),
                depth: 0,
                child_index: 0,
                hardened: false,
            },
        )
    } else {
        None
    }
}

fn split_tag(tag: &Vec<u8>) -> (r: ([u8; 32], [u8; 32]))
    requires
        tag@.len() == 64,
    ensures
        r.0@ == tag@.take(32),
        r.1@ == tag@.skip(32),
{
    let mut left = [0u8; 32];
    let mut right = [0u8; 32];
    let mut i: usize = 0;
    while i < 32
        invariant
            tag@.len() == 64,
            i <= 32,
            forall|j: int| 0 <= j < i ==> left@[j] == tag@[j] && right@[j] == tag@[j + 32],
        decreases 32 - i,
    {
        left[i] = tag[i];
        right[i] = tag[i + 32];
        i += 1;
    }
    assert(left@ =~= tag@.take(32));
    assert(right@ =~= tag@.skip(32));
    (left, right)
}

/// The master key of a seed: the tag of the seed under "Bitcoin seed",
/// split into private scalar and chain code. Fails when the scalar is zero
/// or not below the group order.
pub fn master_key(seed: &Key512) -> (r: ClientResult<ExtendedKey>)
    ensures
        r is Ok <==> master_spec(seed@) is Some,
        r is Ok ==> r->Ok_0@ == master_spec(seed@)->0,
        r is Err ==> r->Err_0.code == ErrorCode::Bip32InvalidKey.spec_value(),
{
    let tag = hmac_sha512("Bitcoin seed".as_bytes(), seed.as_bytes());
    let (left, right) = split_tag(&tag);
    if !check_scalar(&left) {
        return Err(Error::bip32_invalid_key("master scalar is out of range"));
    }
    Ok(
        ExtendedKey {
            key: KeyMaterial::Private(SecretBufConst::from(left)),
            chain_code: SecretBufConst::from(right),
            depth: 0,
            child_index: 0,
            hardened: false,
        },
    )
}

/// The big-endian bytes of a 32-bit number.
pub open spec fn be32(x: u32) -> Seq<u8> {
    seq![(x >> 24u32) as u8, (x >> 16u32) as u8, (x >> 8u32) as u8, x as u8]
}

/// The first child index of the hardened range.
pub const HARDENED_OFFSET: u32 = 0x8000_0000;

/// The tag that hardened derivation of child `index` computes: the
/// parent's chain code keys an HMAC over a zero byte, the parent scalar and
/// the offset index.
pub open spec fn hardened_tag(chain: Seq<u8>, k: Seq<u8>, index: u32) -> Seq<u8> {
    hmac_sha512_of(chain, seq![0u8] + k + be32((index + HARDENED_OFFSET) as u32))
}

/// One step of a derivation path.
#[derive(Clone, Copy, Debug, PartialEq, Eq, Structural)]
pub struct PathStep {
    pub index: u32,
    pub hardened: bool,
}

/// The tag that non-hardened derivation of child `index` computes: the
/// parent's chain code keys an HMAC over the parent's serialized public key
/// and the index.
pub open spec fn normal_tag(chain: Seq<u8>, public: Seq<u8>, index: u32) -> Seq<u8> {
    hmac_sha512_of(chain, public + be32(index))
}

/// The child of `parent` for one step, if derivation succeeds. A private
/// parent has hardened and non-hardened children, a public parent only
/// non-hardened ones. A child whose tag half is not below the group order
/// does not exist, nor one whose scalar would be zero or whose point would
/// be at infinity, nor one past the greatest depth.
pub open spec fn child_spec(parent: KeyView, step: PathStep) -> Option<KeyView> {
    if step.index >= HARDENED_OFFSET || parent.depth >= 255 {
        None
    } else if parent.private is Some {
        let k = parent.private->0;
        let tag = if step.hardened {
            hardened_tag(parent.chain_code, k, step.index)
        } else {
            normal_tag(parent.chain_code, pubkey_of(k), step.index)
        };
        let il = be_value(tag.take(32));
        if il >= order() || (il + be_value(k)) % order() == 0 {
            None
        } else {
            Some(
                KeyView {
                    private: Some(child_scalar(tag.take(32), k)),
                    public: Seq::empty(),
                    chain_code: tag.skip(32),
                    depth: parent.depth + 1,
                    child_index: step.index,
                    hardened: step.hardened,
                },
            )
        }
    } else if step.hardened {
        None
    } else {
        let tag = normal_tag(parent.chain_code, parent.public, step.index);
        if be_value(tag.take(32)) >= order() {
            None
        } else {
            match point_tweak_add(parent.public, tag.take(32)) {
                Some(p) => Some(
                    KeyView {
                        private: None,
                        public: p,
                        chain_code: tag.skip(32),
                        depth: parent.depth + 1,
                        child_index: step.index,
                        hardened: false,
                    },
                ),
                None => None,
            }
        }
    }
}

/// The child scalar: 32 bytes whose value is the sum of the two values
/// modulo the group order.
pub open spec fn child_scalar(il: Seq<u8>, k: Seq<u8>) -> Seq<u8> {
    choose|c: Seq<u8>| c.len() == 32 && be_value(c) == (be_value(il) + be_value(k)) % order()
}

/// Two 32-byte strings with the same value are equal.
proof fn lemma_be_injective(a: Seq<u8>, b: Seq<u8>)
    requires
        a.len() == b.len(),
        be_value(a) == be_value(b),
    ensures
        a == b,
    decreases a.len(),
{
    if a.len() > 0 {
        let p = crate::scalar::pow256((a.len() - 1) as nat);
        crate::scalar::lemma_be_bound(a.skip(1));
        crate::scalar::lemma_be_bound(b.skip(1));
        let xa = a[0] as nat;
        let xb = b[0] as nat;
        let ra = be_value(a.skip(1));
        let rb = be_value(b.skip(1));
        assert(xa == xb && ra == rb) by (nonlinear_arith)
            requires
                xa * p + ra == xb * p + rb,
                ra < p,
                rb < p,
        ;
        lemma_be_injective(a.skip(1), b.skip(1));
        assert(a =~= seq![a[0]] + a.skip(1));
        assert(b =~= seq![b[0]] + b.skip(1));
    }
}

fn be32_bytes(x: u32) -> (r: [u8; 4])
    ensures
        r@ == be32(x),
{
    let r = [(x >> 24u32) as u8, (x >> 16u32) as u8, (x >> 8u32) as u8, x as u8];
    assert(r@ =~= be32(x));
    r
}

fn append_bytes(data: &mut Vec<u8>, src: &[u8])
    ensures
        final(data)@ == old(data)@ + src@,
{
    let ghost start = data@;
    let mut i: usize = 0;
    while i < src.len()
        invariant
            i <= src@.len(),
            data@ == start + src@.take(i as int),
        decreases src@.len() - i,
    {
        data.push(src[i]);
        assert(src@.take(i + 1) =~= src@.take(i as int).push(src@[i as int]));
        assert(data@ =~= start + src@.take(i + 1));
        i += 1;
    }
    assert(src@.take(i as int) =~= src@);
}

fn public_array(p: &Vec<u8>) -> (r: [u8; 33])
    requires
        p@.len() == 33,
    ensures
        r@ == p@,
{
    let mut r = [0u8; 33];
    let mut i: usize = 0;
    while i < 33
        invariant
            p@.len() == 33,
            i <= 33,
            forall|j: int| 0 <= j < i ==> r@[j] == p@[j],
        decreases 33 - i,
    {
        r[i] = p[i];
        i += 1;
    }
    assert(r@ =~= p@);
    r
}

/// A derived private scalar and chain code.
struct ChildParts {
    scalar: [u8; 32],
    chain: [u8; 32],
}

/// The child of a private parent with scalar `k` for `tag`: the scalar is
/// the left half of the tag plus `k` modulo the group order, the chain code
/// the right half.
fn private_child(k: &[u8; 32], tag: &Vec<u8>) -> (r: Option<ChildParts>)
    requires
        scalar_ok(k@),
        tag@.len() == 64,
    ensures
        r is Some <==> !(be_value(tag@.take(32)) >= order() || (be_value(tag@.take(32)) + be_value(k@))
            % order() == 0),
        r is Some ==> r->0.scalar@ == child_scalar(tag@.take(32), k@) && r->0.chain@ == tag@.skip(32)
            && scalar_ok(r->0.scalar@),
{
    let (left, right) = split_tag(tag);
    if !check_scalar(&left) && !is_zero(&left) {
        return None;
    }
    proof {
        crate::scalar::lemma_order_pos();
    }
    let sum = if is_zero(&left) {
        proof {
            vstd::arithmetic::div_mod::lemma_small_mod(be_value(k@), order());
        }
        *k
    } else {
        add_mod_order(&left, k)
    };
    if is_zero(&sum) {
        return None;
    }
    proof {
        let c = child_scalar(tag@.take(32), k@);
        assert(sum@.len() == 32 && be_value(sum@) == (be_value(tag@.take(32)) + be_value(k@)) % order());
        lemma_be_injective(c, sum@);
    }
    Some(ChildParts { scalar: sum, chain: right })
}

/// The child of `parent` at `index`, hardened or not. Hardened derivation
/// needs the parent's private scalar. Fails for an index of the hardened
/// range, past the greatest depth, and where the derived key is not valid
/// (the caller may go on with the next index).
pub fn derive_child(parent: &ExtendedKey, index: u32, hardened: bool) -> (r: ClientResult<ExtendedKey>)
    requires
        key_ok(parent@),
    ensures
        r is Ok <==> child_spec(parent@, PathStep { index, hardened }) is Some,
        r is Ok ==> r->Ok_0@ == child_spec(parent@, PathStep { index, hardened })->0 && key_ok(r->Ok_0@),
        r is Err ==> r->Err_0.code == ErrorCode::Bip32InvalidKey.spec_value(),
{
    if index >= HARDENED_OFFSET {
        return Err(Error::bip32_invalid_key("child index is in the hardened range"));
    }
    if parent.depth == 255 {
        return Err(Error::bip32_invalid_key("greatest depth reached"));
    }
    match &parent.key {
        KeyMaterial::Private(k) => {
            let mut data: Vec<u8> = Vec::new();
            if hardened {
                data.push(0u8);
                append_bytes(&mut data, k.0.as_slice());
                let ib = be32_bytes(index + HARDENED_OFFSET);
                append_bytes(&mut data, ib.as_slice());
            } else {
                let pk = public_key(&k.0);
                append_bytes(&mut data, pk.as_slice());
                let ib = be32_bytes(index);
                append_bytes(&mut data, ib.as_slice());
            }
            let tag = hmac_sha512(parent.chain_code.as_bytes(), data.as_slice());
            match private_child(&k.0, &tag) {
                None => Err(Error::bip32_invalid_key("derived scalar is not valid")),
                Some(parts) => Ok(
                    ExtendedKey {
                        key: KeyMaterial::Private(SecretBufConst::from(parts.scalar)),
                        chain_code: SecretBufConst::from(parts.chain),
                        depth: parent.depth + 1,
                        child_index: index,
                        hardened,
                    },
                ),
            }
        },
        KeyMaterial::Public(p) => {
            if hardened {
                return Err(Error::bip32_invalid_key("hardened derivation needs a private key"));
            }
            let pa = public_array(p);
            let mut data: Vec<u8> = Vec::new();
            append_bytes(&mut data, pa.as_slice());
            let ib = be32_bytes(index);
            append_bytes(&mut data, ib.as_slice());
            let tag = hmac_sha512(parent.chain_code.as_bytes(), data.as_slice());
            let (left, right) = split_tag(&tag);
            if !below_order(&left) {
                return Err(Error::bip32_invalid_key("derived tag is not below the group order"));
            }
            match tweak_add(&pa, &left) {
                None => Err(Error::bip32_invalid_key("derived point is not valid")),
                Some(q) => {
                    let mut qv: Vec<u8> = Vec::new();
                    append_bytes(&mut qv, q.as_slice());
                    assert(qv@ =~= q@);
                    Ok(
                    ExtendedKey {
                        key: KeyMaterial::Public(qv),
                        chain_code: SecretBufConst::from(right),
                        depth: parent.depth + 1,
                        child_index: index,
                        hardened: false,
                    },
                    )
                },
            }
        },
    }
}

/// The hardened and the non-hardened child at one index of one parent are
/// different keys: they differ at least in their hardened mark. (Their key
/// bytes come from HMAC tags over different inputs; nothing here states
/// that such tags differ.)
pub proof fn lemma_hardened_and_normal_differ(parent: KeyView, index: u32)
    requires
        child_spec(parent, PathStep { index, hardened: true }) is Some,
        child_spec(parent, PathStep { index, hardened: false }) is Some,
    ensures
        child_spec(parent, PathStep { index, hardened: true })->0 != child_spec(
            parent,
            PathStep { index, hardened: false },
        )->0,
{
}

/// Hardened derivation from a key without private material fails.
pub proof fn lemma_public_has_no_hardened_child(parent: KeyView, index: u32)
    requires
        parent.private is None,
    ensures
        child_spec(parent, PathStep { index, hardened: true }) is None,
{
}


/// The segment read so far, closed: a step when it has digits and its
/// index is below the hardened range.
pub open spec fn close_segment(v: Option<nat>, h: bool, acc: Seq<PathStep>) -> Option<Seq<PathStep>> {
    match v {
        Some(n) => if n < HARDENED_OFFSET {
            Some(acc.push(PathStep { index: n as u32, hardened: h }))
        } else {
            None
        },
        None => None,
    }
}

/// Whether `c` is a decimal digit.
pub open spec fn is_digit(c: char) -> bool {
    '0' <= c && c <= '9'
}

/// The value of a decimal digit.
pub open spec fn digit_value(c: char) -> nat {
    ((c as u32) - ('0' as u32)) as nat
}

/// Reads the path from position `i` on, with the digits `v` and the hardened
/// mark `h` of the current segment and the steps `acc` read before it.
pub open spec fn parse_from(s: Seq<char>, i: int, v: Option<nat>, h: bool, acc: Seq<PathStep>) -> Option<Seq<PathStep>>
    decreases s.len() - i,
{
    if i >= s.len() || i < 0 {
        close_segment(v, h, acc)
    } else {
        let c = s[i];
        if c == '/' {
            match close_segment(v, h, acc) {
                Some(a) => parse_from(s, i + 1, None, false, a),
                None => None,
            }
        } else if h {
            None
        } else if is_digit(c) {
            let nv = match v {
                Some(n) => n * 10 + digit_value(c),
                None => digit_value(c),
            };
            if nv >= HARDENED_OFFSET {
                None
            } else {
                parse_from(s, i + 1, Some(nv), false, acc)
            }
        } else if c == '\'' {
            if v is None {
                None
            } else {
                parse_from(s, i + 1, v, true, acc)
            }
        } else {
            None
        }
    }
}

/// The steps of a derivation path such as `m/44'/396'/0'/0/0`: "m", then
/// for each step a slash, a decimal index below 2^31 and an apostrophe
/// where the step is hardened. `None` where the text is malformed.
pub open spec fn parse_path_spec(s: Seq<char>) -> Option<Seq<PathStep>> {
    if s.len() == 0 || s[0] != 'm' {
        None
    } else if s.len() == 1 {
        Some(Seq::empty())
    } else if s[1] != '/' {
        None
    } else {
        parse_from(s, 2, None, false, Seq::empty())
    }
}

fn close_segment_exec(v: Option<u32>, h: bool, acc: &mut Vec<PathStep>) -> (r: bool)
    ensures
        close_segment(
            match v {
                Some(n) => Some(n as nat),
                None => None,
            },
            h,
            old(acc)@,
        ) is Some <==> r,
        r ==> final(acc)@ == close_segment(
            match v {
                Some(n) => Some(n as nat),
                None => None,
            },
            h,
            old(acc)@,
        )->0,
{
    match v {
        Some(n) => {
            if n < HARDENED_OFFSET {
                acc.push(PathStep { index: n, hardened: h });
                true
            } else {
                false
            }
        },
        None => false,
    }
}

/// The steps of a derivation path; malformed text is refused.
pub fn parse_path(path: &str) -> (r: ClientResult<Vec<PathStep>>)
    ensures
        r is Ok <==> parse_path_spec(path@) is Some,
        r is Ok ==> r->Ok_0@ == parse_path_spec(path@)->0,
        r is Err ==> r->Err_0.code == ErrorCode::Bip32InvalidDerivePath.spec_value(),
{
    let n = path.unicode_len();
    if n == 0 || path.get_char(0) != 'm' {
        return Err(Error::bip32_invalid_derive_path(path));
    }
    if n == 1 {
        return Ok(Vec::new());
    }
    if path.get_char(1) != '/' {
        return Err(Error::bip32_invalid_derive_path(path));
    }
    let ghost s = path@;
    let mut acc: Vec<PathStep> = Vec::new();
    let mut v: Option<u32> = None;
    let mut h = false;
    let mut i: usize = 2;
    while i < n
        invariant
            s == path@,
            n == s.len(),
            2 <= i <= n,
            parse_path_spec(s) == parse_from(s, i as int, match v {
                Some(x) => Some(x as nat),
                None => None,
            }, h, acc@),
            v is Some ==> v->0 < HARDENED_OFFSET,
        decreases n - i,
    {
        let c = path.get_char(i);
        let ghost gv = match v {
            Some(x) => Some(x as nat),
            None => None,
        };
        if c == '/' {
            if !close_segment_exec(v, h, &mut acc) {
                return Err(Error::bip32_invalid_derive_path(path));
            }
            v = None;
            h = false;
        } else if h {
            return Err(Error::bip32_invalid_derive_path(path));
        } else if '0' <= c && c <= '9' {
            let d = (c as u32) - ('0' as u32);
            let nv: u64 = match v {
                Some(x) => x as u64 * 10 + d as u64,
                None => d as u64,
            };
            if nv >= HARDENED_OFFSET as u64 {
                return Err(Error::bip32_invalid_derive_path(path));
            }
            v = Some(nv as u32);
        } else if c == '\'' {
            if v.is_none() {
                return Err(Error::bip32_invalid_derive_path(path));
            }
            h = true;
        } else {
            return Err(Error::bip32_invalid_derive_path(path));
        }
        i += 1;
    }
    if !close_segment_exec(v, h, &mut acc) {
        return Err(Error::bip32_invalid_derive_path(path));
    }
    Ok(acc)
}

/// The key that the steps lead to from `root`, if every step succeeds.
pub open spec fn derive_steps(root: KeyView, steps: Seq<PathStep>) -> Option<KeyView>
    decreases steps.len(),
{
    if steps.len() == 0 {
        Some(root)
    } else {
        match derive_steps(root, steps.drop_last()) {
            Some(k) => child_spec(k, steps.last()),
            None => None,
        }
    }
}

/// The key at `path` below `root`: the path is parsed and each step
/// derived in turn. Fails with a derive-path error when the path is
/// malformed or a step fails.
pub fn derive_path(root: &ExtendedKey, path: &str) -> (r: ClientResult<ExtendedKey>)
    requires
        key_ok(root@),
    ensures
        r is Ok <==> parse_path_spec(path@) is Some && derive_steps(root@, parse_path_spec(path@)->0) is Some,
        r is Ok ==> r->Ok_0@ == derive_steps(root@, parse_path_spec(path@)->0)->0,
        r is Err ==> r->Err_0.code == ErrorCode::Bip32InvalidDerivePath.spec_value(),
{
    let steps = parse_path(path)?;
    let mut cur = root.duplicate();
    let mut i: usize = 0;
    while i < steps.len()
        invariant
            i <= steps@.len(),
            parse_path_spec(path@) is Some,
            steps@ == parse_path_spec(path@)->0,
            key_ok(cur@),
            derive_steps(root@, steps@.take(i as int)) == Some(cur@),
        decreases steps@.len() - i,
    {
        let step = steps[i];
        assert(steps@.take(i + 1).drop_last() =~= steps@.take(i as int));
        match derive_child(&cur, step.index, step.hardened) {
            Ok(k) => {
                cur = k;
            },
            Err(_) => {
                proof {
                    assert(steps@.take(i + 1).last() == step);
                    assert(derive_steps(root@, steps@.take(i + 1)) is None);
                    lemma_failed_prefix(root@, steps@, i + 1);
                }
                return Err(Error::bip32_invalid_derive_path(path));
            },
        }
        i += 1;
    }
    assert(steps@.take(i as int) =~= steps@);
    Ok(cur)
}

proof fn lemma_failed_prefix(root: KeyView, steps: Seq<PathStep>, i: int)
    requires
        0 <= i <= steps.len(),
        derive_steps(root, steps.take(i)) is None,
    ensures
        derive_steps(root, steps) is None,
    decreases steps.len() - i,
{
    if i < steps.len() {
        assert(steps.take(i + 1).drop_last() =~= steps.take(i));
        lemma_failed_prefix(root, steps, i + 1);
    } else {
        assert(steps.take(i) =~= steps);
    }
}

/// Derivation along a path is a function of the root key and the path
/// text: two derivations from the same root along the same path give the
/// same key.
pub proof fn lemma_derive_path_deterministic(root: KeyView, path: Seq<char>, k1: KeyView, k2: KeyView)
    requires
        parse_path_spec(path) is Some,
        derive_steps(root, parse_path_spec(path)->0) == Some(k1),
        derive_steps(root, parse_path_spec(path)->0) == Some(k2),
    ensures
        k1 == k2,
{
}

} // verus!
