//! 256-bit big-endian scalars modulo the order of the secp256k1 group.
use vstd::prelude::*;

verus! {

/// The numeric value of a big-endian byte string.
pub open spec fn be_value(s: Seq<u8>) -> nat
    decreases s.len(),
{
    if s.len() == 0 {
        0
    } else {
        s[0] as nat * pow256((s.len() - 1) as nat) + be_value(s.skip(1))
    }
}

/// 256 to the power `k`.
pub open spec fn pow256(k: nat) -> nat
    decreases k,
{
    if k == 0 {
        1
    } else {
        256 * pow256((k - 1) as nat)
    }
}

/// The order of the secp256k1 group, big-endian.
pub open spec fn order_bytes() -> Seq<u8> {
    seq![
        0xFFu8, 0xFF, 0xFF, 0xFF, 0xFF, 0xFF, 0xFF, 0xFF, 0xFF, 0xFF, 0xFF, 0xFF, 0xFF, 0xFF, 0xFF, 0xFE,
        0xBA, 0xAE, 0xDC, 0xE6, 0xAF, 0x48, 0xA0, 0x3B, 0xBF, 0xD2, 0x5E, 0x8C, 0xD0, 0x36, 0x41, 0x41,
    ]
}

/// The order of the secp256k1 group.
pub open spec fn order() -> nat {
    be_value(order_bytes())
}

/// A valid private scalar: 32 bytes whose value is neither zero nor at
/// least the group order.
pub open spec fn scalar_ok(s: Seq<u8>) -> bool {
    s.len() == 32 && 0 < be_value(s) < order()
}

fn order_array() -> (r: [u8; 32])
    ensures
        r@ == order_bytes(),
{
    let r: [u8; 32] = [
        0xFFu8, 0xFF, 0xFF, 0xFF, 0xFF, 0xFF, 0xFF, 0xFF, 0xFF, 0xFF, 0xFF, 0xFF, 0xFF, 0xFF, 0xFF, 0xFE,
        0xBA, 0xAE, 0xDC, 0xE6, 0xAF, 0x48, 0xA0, 0x3B, 0xBF, 0xD2, 0x5E, 0x8C, 0xD0, 0x36, 0x41, 0x41,
    ];
    assert(r@ =~= order_bytes());
    r
}

proof fn lemma_be_step(s: Seq<u8>, i: int)
    requires
        0 <= i < s.len(),
    ensures
        be_value(s.skip(i)) == s[i] as nat * pow256((s.len() - 1 - i) as nat) + be_value(s.skip(i + 1)),
{
    assert(s.skip(i).skip(1) =~= s.skip(i + 1));
}

pub(crate) proof fn lemma_be_bound(s: Seq<u8>)
    ensures
        be_value(s) < pow256(s.len()),
    decreases s.len(),
{
    if s.len() > 0 {
        lemma_be_bound(s.skip(1));
        let p = pow256((s.len() - 1) as nat);
        let x = s[0] as nat;
        let rest = be_value(s.skip(1));
        assert(x * p + rest < 256 * p) by (nonlinear_arith)
            requires
                x <= 255,
                rest < p,
        ;
    }
}

proof fn lemma_skip_frame(a: Seq<u8>, b: Seq<u8>, i: int)
    requires
        a.len() == b.len(),
        0 <= i <= a.len(),
        forall|j: int| i <= j < a.len() ==> a[j] == b[j],
    ensures
        be_value(a.skip(i)) == be_value(b.skip(i)),
{
    assert(a.skip(i) =~= b.skip(i));
}

/// Adds two 32-byte big-endian numbers; returns the low 32 bytes and the
/// carry out.
fn add_bytes(a: &[u8; 32], b: &[u8; 32]) -> (r: ([u8; 32], u8))
    ensures
        r.1 <= 1,
        be_value(r.0@) + r.1 as nat * pow256(32) == be_value(a@) + be_value(b@),
{
    let mut out = [0u8; 32];
    let mut carry: u16 = 0;
    let mut i: usize = 32;
    assert(a@.skip(32) =~= Seq::<u8>::empty());
    assert(b@.skip(32) =~= Seq::<u8>::empty());
    assert(out@.skip(32) =~= Seq::<u8>::empty());
    while i > 0
        invariant
            i <= 32,
            out@.len() == 32,
            carry <= 1,
            be_value(out@.skip(i as int)) + carry as nat * pow256((32 - i) as nat) == be_value(a@.skip(i as int))
                + be_value(b@.skip(i as int)),
        decreases i,
    {
        let j = i - 1;
        let x: u16 = a[j] as u16 + b[j] as u16 + carry;
        let ghost old_out = out@;
        out[j] = (x % 256) as u8;
        proof {
            lemma_skip_frame(out@, old_out, i as int);
            lemma_be_step(out@, j as int);
            lemma_be_step(a@, j as int);
            lemma_be_step(b@, j as int);
            let p = pow256((32 - i) as nat);
            assert(pow256((32 - j) as nat) == 256 * p);
            let ro = be_value(old_out.skip(i as int));
            let ra = be_value(a@.skip(i as int));
            let rb = be_value(b@.skip(i as int));
            let xa = a@[j as int] as nat;
            let xb = b@[j as int] as nat;
            let c = carry as nat;
            let xn = x as nat;
            assert(xn == xa + xb + c);
            assert(((xn % 256) * p + ro) + (xn / 256) * (256 * p) == (xa * p + ra) + (xb * p + rb))
                by (nonlinear_arith)
                requires
                    xn == xa + xb + c,
                    ro + c * p == ra + rb,
            ;
        }
        carry = x / 256;
        i = j;
    }
    assert(a@.skip(0) =~= a@);
    assert(b@.skip(0) =~= b@);
    assert(out@.skip(0) =~= out@);
    (out, carry as u8)
}

/// Subtracts two 32-byte big-endian numbers modulo 2^256; returns the
/// difference and the borrow out.
fn sub_bytes(a: &[u8; 32], b: &[u8; 32]) -> (r: ([u8; 32], u8))
    ensures
        r.1 <= 1,
        be_value(r.0@) + be_value(b@) == be_value(a@) + r.1 as nat * pow256(32),
{
    let mut out = [0u8; 32];
    let mut borrow: u16 = 0;
    let mut i: usize = 32;
    assert(a@.skip(32) =~= Seq::<u8>::empty());
    assert(b@.skip(32) =~= Seq::<u8>::empty());
    assert(out@.skip(32) =~= Seq::<u8>::empty());
    while i > 0
        invariant
            i <= 32,
            out@.len() == 32,
            borrow <= 1,
            be_value(out@.skip(i as int)) + be_value(b@.skip(i as int)) == be_value(a@.skip(i as int))
                + borrow as nat * pow256((32 - i) as nat),
        decreases i,
    {
        let j = i - 1;
        let need: u16 = b[j] as u16 + borrow;
        let have: u16 = a[j] as u16;
        let ghost old_out = out@;
        let nb: u16 = if have < need { 1 } else { 0 };
        let d: u16 = have + nb * 256 - need;
        out[j] = d as u8;
        proof {
            lemma_skip_frame(out@, old_out, i as int);
            lemma_be_step(out@, j as int);
            lemma_be_step(a@, j as int);
            lemma_be_step(b@, j as int);
            let p = pow256((32 - i) as nat);
            assert(pow256((32 - j) as nat) == 256 * p);
            let ro = be_value(old_out.skip(i as int));
            let ra = be_value(a@.skip(i as int));
            let rb = be_value(b@.skip(i as int));
            let xa = a@[j as int] as nat;
            let xb = b@[j as int] as nat;
            let c = borrow as nat;
            let dn = d as nat;
            let nbn = nb as nat;
            assert(dn < 256);
            assert(dn + xb + c == xa + nbn * 256);
            assert((dn * p + ro) + (xb * p + rb) == (xa * p + ra) + nbn * (256 * p))
                by (nonlinear_arith)
                requires
                    dn + xb + c == xa + nbn * 256,
                    ro + rb == ra + c * p,
            ;
        }
        borrow = nb;
        i = j;
    }
    assert(a@.skip(0) =~= a@);
    assert(b@.skip(0) =~= b@);
    assert(out@.skip(0) =~= out@);
    (out, borrow as u8)
}

/// Whether a 32-byte big-endian number is below the group order.
pub(crate) fn below_order(a: &[u8; 32]) -> (r: bool)
    ensures
        r == (be_value(a@) < order()),
{
    let n = order_array();
    let (_d, borrow) = sub_bytes(a, &n);
    proof {
        lemma_be_bound(_d@);
        lemma_be_bound(a@);
        lemma_be_bound(n@);
    }
    borrow == 1
}

/// Whether all bytes are zero, that is, whether the value is zero.
pub(crate) fn is_zero(a: &[u8; 32]) -> (r: bool)
    ensures
        r == (be_value(a@) == 0),
{
    let mut i: usize = 0;
    while i < 32
        invariant
            i <= 32,
            forall|j: int| 0 <= j < i ==> a@[j] == 0,
        decreases 32 - i,
    {
        if a[i] != 0 {
            proof {
                lemma_be_zero_iff(a@);
            }
            return false;
        }
        i += 1;
    }
    proof {
        lemma_be_zero_iff(a@);
    }
    true
}

proof fn lemma_be_zero_iff(s: Seq<u8>)
    ensures
        (be_value(s) == 0) <==> (forall|j: int| 0 <= j < s.len() ==> s[j] == 0),
    decreases s.len(),
{
    if s.len() > 0 {
        lemma_be_zero_iff(s.skip(1));
        lemma_pow_pos((s.len() - 1) as nat);
        let p = pow256((s.len() - 1) as nat);
        let x = s[0] as nat;
        assert(x * p == 0 <==> x == 0) by (nonlinear_arith)
            requires
                p > 0,
        ;
        if forall|j: int| 0 <= j < s.skip(1).len() ==> s.skip(1)[j] == 0 {
            if s[0] == 0 {
                assert forall|j: int| 0 <= j < s.len() implies s[j] == 0 by {
                    if j > 0 {
                        assert(s.skip(1)[j - 1] == s[j]);
                    }
                }
            }
        }
        if forall|j: int| 0 <= j < s.len() ==> s[j] == 0 {
            assert forall|j: int| 0 <= j < s.skip(1).len() implies s.skip(1)[j] == 0 by {
                assert(s.skip(1)[j] == s[j + 1]);
            }
        }
    }
}

/// The group order is positive.
pub(crate) proof fn lemma_order_pos()
    ensures
        order() > 0,
{
    lemma_be_zero_iff(order_bytes());
    assert(order_bytes()[0] != 0);
}

proof fn lemma_pow_pos(k: nat)
    ensures
        pow256(k) > 0,
    decreases k,
{
    if k > 0 {
        lemma_pow_pos((k - 1) as nat);
    }
}

/// Whether 32 bytes form a valid private scalar.
pub fn check_scalar(a: &[u8; 32]) -> (r: bool)
    ensures
        r == scalar_ok(a@),
{
    !is_zero(a) && below_order(a)
}

/// The sum of two scalars below the group order, modulo the order.
pub fn add_mod_order(a: &[u8; 32], b: &[u8; 32]) -> (r: [u8; 32])
    requires
        be_value(a@) < order(),
        be_value(b@) < order(),
    ensures
        be_value(r@) == (be_value(a@) + be_value(b@)) % order(),
{
    let n = order_array();
    let (s, carry) = add_bytes(a, b);
    let (d, borrow) = sub_bytes(&s, &n);
    proof {
        lemma_be_bound(s@);
        lemma_be_bound(d@);
        lemma_be_bound(n@);
        assert(order() < pow256(32)) by {
            lemma_be_bound(order_bytes());
        }
        let p = pow256(32);
        assert(borrow as nat * p == if borrow == 1 { p } else { 0 }) by (nonlinear_arith)
            requires
                borrow <= 1,
        ;
        assert(carry as nat * p == if carry == 1 { p } else { 0 }) by (nonlinear_arith)
            requires
                carry <= 1,
        ;
    }
    let ghost total = be_value(a@) + be_value(b@);
    if carry == 1 || borrow == 0 {
        proof {
            assert(d@.len() == 32 && s@.len() == 32);
            assert(be_value(n@) == order());
            if carry == 1 {
                assert(carry as nat * pow256(32) == pow256(32)) by (nonlinear_arith)
                requires
                    carry == 1,
            ;
            } else {
                assert(carry as nat * pow256(32) == 0) by (nonlinear_arith)
                requires
                    carry == 0,
            ;
                assert(borrow as nat * pow256(32) == 0) by (nonlinear_arith)
                requires
                    borrow == 0,
            ;
            }
            assert(total >= order());
            assert(total - order() < order());
            assert(be_value(d@) == total - order());
            vstd::arithmetic::div_mod::lemma_mod_sub_multiples_vanish(total as int, order() as int);
            vstd::arithmetic::div_mod::lemma_small_mod((total - order()) as nat, order());
        }
        d
    } else {
        proof {
            assert(d@.len() == 32);
            assert(borrow == 1 && carry == 0);
            assert(borrow as nat * pow256(32) == pow256(32)) by (nonlinear_arith)
                requires
                    borrow == 1,
            ;
            assert(carry as nat * pow256(32) == 0) by (nonlinear_arith)
                requires
                    carry == 0,
            ;
            assert(be_value(n@) == order());
            assert(be_value(d@) < pow256(32));
            assert(be_value(s@) < order());
            assert(total < order());
            vstd::arithmetic::div_mod::lemma_small_mod(total as nat, order());
        }
        s
    }
}

} // verus!
