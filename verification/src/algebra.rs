//! Mathematical model of the scheme.
//!
//! Every group element the scheme handles is a scalar multiple of a fixed
//! generator, so a group-1 or group-2 element is modelled by its discrete
//! logarithm and a target-group element by its exponent, all residues
//! modulo the shared prime group order. The pairing-equation check of the
//! scheme then becomes arithmetic over these residues, captured by
//! `spec_verifies`.

use vstd::prelude::*;
use vstd::arithmetic::div_mod::lemma_add_mod_noop;
use vstd::arithmetic::div_mod::lemma_mul_mod_noop_left;
use vstd::arithmetic::div_mod::lemma_mul_mod_noop_right;

verus! {

/// Order of the two source groups and of the target group of the pairing:
/// a 254-bit prime fixed by the curve, written over its base-2^56 limbs.
pub open spec fn group_order() -> nat {
    (((((0x25236482 * 0x100000000000000) + 0x40000001BA344D) * 0x100000000000000
        + 0x8000000007FF9F) * 0x100000000000000 + 0x800000000010A1) * 0x100000000000000
        + 0xD) as nat
}

/// A residue modulo the group order.
pub open spec fn reduced(x: nat) -> bool {
    x < group_order()
}

/// Every entry of the sequence is a residue modulo the group order.
pub open spec fn all_reduced(a: Seq<nat>) -> bool {
    forall|i: int| 0 <= i < a.len() ==> reduced(#[trigger] a[i])
}

/// Dot product of two equal-length sequences, as an unbounded natural.
pub open spec fn dot(a: Seq<nat>, b: Seq<nat>) -> nat
    decreases a.len(),
{
    if a.len() == 0 || b.len() == 0 {
        0
    } else {
        dot(a.drop_last(), b.drop_last()) + a.last() * b.last()
    }
}

/// Every entry multiplied by `c`, reduced modulo the group order.
pub open spec fn scale(a: Seq<nat>, c: nat) -> Seq<nat> {
    a.map_values(|x: nat| (x * c) % group_order())
}

/// The two pairing equations of the scheme, in the exponent model.
///
/// A signature `(z, y, yh)` on message `m` under public key `pk` is valid
/// when the product of the component pairings equals the pairing of the
/// group-2 anchor with `z`, and the two anchors `y` and `yh` encode the
/// same hidden scaling factor.
pub open spec fn spec_verifies(pk: Seq<nat>, m: Seq<nat>, z: nat, y: nat, yh: nat) -> bool {
    &&& pk.len() == m.len()
    &&& dot(pk, m) % group_order() == (yh * z) % group_order()
    &&& y == yh
}

/// Discrete logarithm of the signature component `Z` produced by signing:
/// the key-message combination, scaled by the blinding factor `y`.
pub open spec fn spec_sign_z(sk: Seq<nat>, m: Seq<nat>, y: nat) -> nat {
    ((dot(sk, m) % group_order()) * y) % group_order()
}

/// Scaling one side of a dot product scales the whole product, modulo the
/// group order.
pub proof fn lemma_dot_scale_right(a: Seq<nat>, b: Seq<nat>, c: nat)
    requires
        a.len() == b.len(),
    ensures
        dot(a, scale(b, c)) % group_order() == (dot(a, b) * c) % group_order(),
    decreases a.len(),
{
    let r = group_order() as int;
    if a.len() == 0 {
        assert(dot(a, scale(b, c)) == 0);
        assert(dot(a, b) * c == 0);
    } else {
        let a1 = a.drop_last();
        let b1 = b.drop_last();
        assert(scale(b, c).drop_last() =~= scale(b1, c));
        lemma_dot_scale_right(a1, b1, c);
        let al = a.last() as int;
        let bl = b.last() as int;
        let ci = c as int;
        let d1s = dot(a1, scale(b1, c)) as int;
        let d1 = dot(a1, b1) as int;
        assert(scale(b, c).last() == (b.last() * c) % group_order());
        assert(dot(a, scale(b, c)) as int == d1s + al * ((bl * ci) % r));
        assert(dot(a, b) as int == d1 + al * bl);
        assert((al * ((bl * ci) % r)) % r == (al * (bl * ci)) % r) by {
            lemma_mul_mod_noop_right(al, bl * ci, r);
        }
        lemma_add_mod_noop(d1s, al * ((bl * ci) % r), r);
        assert(d1s % r == (d1 * ci) % r);
        lemma_add_mod_noop(d1 * ci, al * (bl * ci), r);
        assert(d1 * ci + al * (bl * ci) == (d1 + al * bl) * ci) by (nonlinear_arith);
        assert((d1s + al * ((bl * ci) % r)) % r == ((d1 + al * bl) * ci) % r);
    }
}

/// Symmetric form: scaling the left side of a dot product.
pub proof fn lemma_dot_scale_left(a: Seq<nat>, b: Seq<nat>, c: nat)
    requires
        a.len() == b.len(),
    ensures
        dot(scale(a, c), b) % group_order() == (dot(a, b) * c) % group_order(),
    decreases a.len(),
{
    let r = group_order() as int;
    if a.len() == 0 {
        assert(dot(scale(a, c), b) == 0);
        assert(dot(a, b) * c == 0);
    } else {
        let a1 = a.drop_last();
        let b1 = b.drop_last();
        assert(scale(a, c).drop_last() =~= scale(a1, c));
        lemma_dot_scale_left(a1, b1, c);
        let al = a.last() as int;
        let bl = b.last() as int;
        let ci = c as int;
        let d1s = dot(scale(a1, c), b1) as int;
        let d1 = dot(a1, b1) as int;
        assert(scale(a, c).last() == (a.last() * c) % group_order());
        assert(dot(scale(a, c), b) as int == d1s + ((al * ci) % r) * bl);
        assert(dot(a, b) as int == d1 + al * bl);
        assert((((al * ci) % r) * bl) % r == ((al * ci) * bl) % r) by {
            lemma_mul_mod_noop_left(al * ci, bl, r);
        }
        lemma_add_mod_noop(d1s, ((al * ci) % r) * bl, r);
        assert(d1s % r == (d1 * ci) % r);
        lemma_add_mod_noop(d1 * ci, (al * ci) * bl, r);
        assert(d1 * ci + (al * ci) * bl == (d1 + al * bl) * ci) by (nonlinear_arith);
        assert((d1s + ((al * ci) % r) * bl) % r == ((d1 + al * bl) * ci) % r);
    }
}

} // verus!
