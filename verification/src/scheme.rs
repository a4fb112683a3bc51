//! The mercurial signature scheme: key generation, signing, verification,
//! and the randomization operations, each verified against the exponent
//! model of `crate::algebra`.

use vstd::prelude::*;
use vstd::arithmetic::div_mod::lemma_add_mod_noop;
use vstd::arithmetic::div_mod::lemma_mul_mod_noop_left;
use vstd::arithmetic::div_mod::lemma_mul_mod_noop_right;
use vstd::arithmetic::div_mod::lemma_mod_division_less_than_divisor;
use vstd::arithmetic::div_mod::lemma_mod_twice;
use vstd::arithmetic::div_mod::lemma_mul_mod_noop_general;
use vstd::arithmetic::div_mod::lemma_small_mod;

use miracl_core::rand::RAND_impl;

use crate::algebra::all_reduced;
use crate::algebra::dot;
use crate::algebra::group_order;
use crate::algebra::reduced;
use crate::algebra::scale;
use crate::algebra::spec_sign_z;
use crate::algebra::spec_verifies;
use crate::algebra::lemma_dot_scale_left;
use crate::algebra::lemma_dot_scale_right;
use crate::curve::G1Elem;
use crate::curve::G2Elem;
use crate::curve::Scalar;
use crate::curve::g1_add;
use crate::curve::g1_generator;
use crate::curve::g1_mul;
use crate::curve::g2_generator;
use crate::curve::g2_is_zero;
use crate::curve::g2_mul;
use crate::curve::gt_equals;
use crate::curve::gt_mul;
use crate::curve::gt_one;
use crate::curve::pairing;
use crate::curve::rng_from_seed;
use crate::curve::scalar_invert;
use crate::curve::scalar_is_zero;
use crate::curve::scalar_modmul;
use crate::curve::scalar_one;
use crate::curve::scalar_random;

verus! {

/// The error taxonomy of the scheme: a vector whose length disagrees with
/// the configured one. A failed verification is a normal outcome, not an
/// error, and a zero conversion scalar is a documented caller obligation.
#[derive(Clone, Copy, PartialEq, Eq, Debug)]
pub enum MercurialSignatureError {
    InvalidInput,
}

/// Residues of a vector of scalars.
pub open spec fn scalars_view(v: Seq<Scalar>) -> Seq<nat> {
    v.map_values(|x: Scalar| x@)
}

/// Discrete logarithms of a vector of group-1 elements.
pub open spec fn g1s_view(v: Seq<G1Elem>) -> Seq<nat> {
    v.map_values(|x: G1Elem| x@)
}

/// Discrete logarithms of a vector of group-2 elements.
pub open spec fn g2s_view(v: Seq<G2Elem>) -> Seq<nat> {
    v.map_values(|x: G2Elem| x@)
}

/// A mercurial signature: the bound combination `Z` and the pair
/// `(Y, Yhat)` anchoring the hidden blinding factor in both source groups.
#[allow(non_snake_case)]
#[allow(non_camel_case_types)]
#[derive(Clone)]
pub struct signature {
    Z: G1Elem,
    Y: G1Elem,
    Yhat: G2Elem,
}

#[allow(non_camel_case_types)]
impl View for signature {
    type V = (nat, nat, nat);

    /// Discrete logarithms of the three components.
    closed spec fn view(&self) -> (nat, nat, nat) {
        (self.Z@, self.Y@, self.Yhat@)
    }
}

#[allow(non_snake_case)]
impl signature {
    /// All three components carry reduced discrete logarithms.
    pub open spec fn wf(&self) -> bool {
        reduced(self@.0) && reduced(self@.1) && reduced(self@.2)
    }

    /// Assembles a signature from its three components.
    pub fn from_parts(Z: G1Elem, Y: G1Elem, Yhat: G2Elem) -> (s: signature)
        ensures
            s@ == (Z@, Y@, Yhat@),
    {
        signature { Z, Y, Yhat }
    }

    /// The bound message-key combination.
    pub fn Z(&self) -> (z: &G1Elem)
        ensures
            z@ == self@.0,
    {
        &self.Z
    }

    /// The group-1 anchor of the blinding factor.
    pub fn Y(&self) -> (y: &G1Elem)
        ensures
            y@ == self@.1,
    {
        &self.Y
    }

    /// The group-2 anchor of the blinding factor.
    pub fn Yhat(&self) -> (yhat: &G2Elem)
        ensures
            yhat@ == self@.2,
    {
        &self.Yhat
    }
}

/// Draws a uniform scalar in `[1, r)`: redraws while the sample is zero,
/// so that the result is invertible modulo the prime group order. The
/// number of redraws is bounded; if every one of them lands on zero — a
/// chance in the order of the inverse group order, per draw — the scalar
/// one stands in, which is likewise invertible.
fn random_nonzero(rng: &mut RAND_impl) -> (s: Scalar)
    ensures
        s.wf(),
        s@ != 0,
{
    let mut tries: usize = 0;
    while tries < 8
        invariant
            tries <= 8,
        decreases 8 - tries,
    {
        let s = scalar_random(rng);
        if !scalar_is_zero(&s) {
            return s;
        }
        tries = tries + 1;
    }
    proof {
        assert(1 < group_order());
    }
    scalar_one()
}

/// The relation between a signature and its re-randomization: the blinding
/// pair `(psi, psii)` is inverse modulo the group order, the `Z` component
/// is scaled by the conversion factor `f` and by `psi`, and the two
/// anchors are scaled by `psii`.
pub open spec fn rerandomized(
    sig: (nat, nat, nat),
    f: nat,
    psi: nat,
    psii: nat,
    out: (nat, nat, nat),
) -> bool {
    &&& reduced(psi)
    &&& psi != 0
    &&& reduced(psii)
    &&& (psi * psii) % group_order() == 1
    &&& out.0 == (((sig.0 * f) % group_order()) * psi) % group_order()
    &&& out.1 == (sig.1 * psii) % group_order()
    &&& out.2 == (sig.2 * psii) % group_order()
}

/// Blinding a verification pair cancels: the anchor scaled by the inverse
/// blinding, paired with the combination scaled by the blinding itself,
/// yields the unblinded product.
proof fn lemma_blind_cancels(t: nat, yh: nat, psi: nat, psii: nat)
    requires
        (psi * psii) % group_order() == 1,
    ensures
        (((yh * psii) % group_order()) * (((t % group_order()) * psi) % group_order()))
            % group_order() == (yh * t) % group_order(),
{
    let r = group_order() as int;
    let yhb = yh as int;
    let psib = psi as int;
    let psiib = psii as int;
    let tm = (t as int) % r;
    let a = (yh * psii) as int;
    let b = ((t % group_order()) * psi) as int;
    assert(((a % r) * (b % r)) % r == (a * b) % r) by {
        lemma_mul_mod_noop_general(a, b, r);
    }
    assert(a == yhb * psiib);
    assert(b == tm * psib);
    assert((yhb * psiib) * (tm * psib) == (psib * psiib) * (yhb * tm)) by (nonlinear_arith);
    assert(((psib * psiib) * (yhb * tm)) % r == (((psib * psiib) % r) * (yhb * tm)) % r) by {
        lemma_mul_mod_noop_left(psib * psiib, yhb * tm, r);
    }
    assert((psib * psiib) % r == 1);
    assert((yhb * tm) % r == (yhb * (t as int)) % r) by {
        lemma_mul_mod_noop_right(yhb, t as int, r);
    }
}

/// Key-conversion correctness: a signature valid under a public key stays
/// valid, after re-randomization with the factor `rho`, under the public
/// key whose residues are scaled by the same `rho` — for the unchanged
/// message.
pub proof fn lemma_convert_verifies(
    pk: Seq<nat>,
    m: Seq<nat>,
    z: nat,
    y: nat,
    yh: nat,
    rho: nat,
    psi: nat,
    psii: nat,
)
    requires
        spec_verifies(pk, m, z, y, yh),
        rho != 0,
        (psi * psii) % group_order() == 1,
    ensures
        spec_verifies(
            scale(pk, rho),
            m,
            (((z * rho) % group_order()) * psi) % group_order(),
            (y * psii) % group_order(),
            (yh * psii) % group_order(),
        ),
{
    let r = group_order() as int;
    let d = dot(pk, m) as int;
    lemma_dot_scale_left(pk, m, rho);
    assert((d * (rho as int)) % r == ((d % r) * (rho as int)) % r) by {
        lemma_mul_mod_noop_left(d, rho as int, r);
    }
    assert((((yh * z) % group_order()) as int * (rho as int)) % r == (((yh * z) as int)
        * (rho as int)) % r) by {
        lemma_mul_mod_noop_left((yh * z) as int, rho as int, r);
    }
    assert(((yh * z) as int) * (rho as int) == (yh as int) * (((z * rho)) as int))
        by (nonlinear_arith);
    lemma_blind_cancels((z * rho) as nat, yh, psi, psii);
}

/// Representation-change correctness: a signature valid for a message
/// stays valid, after re-randomization with the factor `mu`, for the
/// message whose residues are scaled by the same `mu` — under the
/// unchanged public key.
pub proof fn lemma_change_representation_verifies(
    pk: Seq<nat>,
    m: Seq<nat>,
    z: nat,
    y: nat,
    yh: nat,
    mu: nat,
    psi: nat,
    psii: nat,
)
    requires
        spec_verifies(pk, m, z, y, yh),
        mu != 0,
        (psi * psii) % group_order() == 1,
    ensures
        spec_verifies(
            pk,
            scale(m, mu),
            (((z * mu) % group_order()) * psi) % group_order(),
            (y * psii) % group_order(),
            (yh * psii) % group_order(),
        ),
{
    let r = group_order() as int;
    let d = dot(pk, m) as int;
    lemma_dot_scale_right(pk, m, mu);
    assert((d * (mu as int)) % r == ((d % r) * (mu as int)) % r) by {
        lemma_mul_mod_noop_left(d, mu as int, r);
    }
    assert((((yh * z) % group_order()) as int * (mu as int)) % r == (((yh * z) as int)
        * (mu as int)) % r) by {
        lemma_mul_mod_noop_left((yh * z) as int, mu as int, r);
    }
    assert(((yh * z) as int) * (mu as int) == (yh as int) * (((z * mu)) as int))
        by (nonlinear_arith);
    lemma_blind_cancels((z * mu) as nat, yh, psi, psii);
}

/// Secret-key/public-key consistency under conversion: signing with the
/// converted secret key yields a signature that verifies under the public
/// key converted with the same factor, because the two conversions keep
/// the residues of the vectors equal.
pub proof fn lemma_converted_key_sign_verifies(
    sk: Seq<nat>,
    pk: Seq<nat>,
    m: Seq<nat>,
    rho: nat,
    y: nat,
    yi: nat,
)
    requires
        pk == sk,
        sk.len() == m.len(),
        (y * yi) % group_order() == 1,
        reduced(yi),
    ensures
        spec_verifies(scale(pk, rho), m, spec_sign_z(scale(sk, rho), m, y), yi, yi),
{
    lemma_sign_verifies(scale(sk, rho), m, y, yi);
}

/// Correctness of signing: a signature formed from the key-message
/// combination, blinded by `y` and anchored by the inverse of `y`,
/// satisfies the verification equations against the secret residues
/// themselves — and so against the matching public key, whose residues are
/// the same.
pub proof fn lemma_sign_verifies(sk: Seq<nat>, m: Seq<nat>, y: nat, yi: nat)
    requires
        sk.len() == m.len(),
        (y * yi) % group_order() == 1,
        reduced(yi),
    ensures
        spec_verifies(sk, m, spec_sign_z(sk, m, y), yi, yi),
{
    let r = group_order() as int;
    let s = dot(sk, m) as int;
    let yb = y as int;
    let yib = yi as int;
    let z = ((s % r) * yb) % r;
    assert((yib * z) % r == (yib * ((s % r) * yb)) % r) by {
        lemma_mul_mod_noop_right(yib, (s % r) * yb, r);
    }
    assert(yib * ((s % r) * yb) == (yb * yib) * (s % r)) by (nonlinear_arith);
    assert(((yb * yib) * (s % r)) % r == (((yb * yib) % r) * (s % r)) % r) by {
        lemma_mul_mod_noop_left(yb * yib, s % r, r);
    }
    assert((yb * yib) % r == 1);
    lemma_mod_twice(s, r);
    assert((yib * z) % r == s % r);
    assert((yi * spec_sign_z(sk, m, y)) % group_order() == dot(sk, m) % group_order());
}

/// The immutable configuration of the scheme: the vector length and the
/// two group generators.
#[allow(non_snake_case)]
pub struct MercurialSignatureScheme {
    ell: usize,
    P: G1Elem,
    Phat: G2Elem,
}

/// Sets up a deterministic random number generator from a fixed byte
/// sequence. Reproducible by construction: a test utility, not a source of
/// production entropy.
pub fn prepare_rng() -> RAND_impl {
    let mut raw: Vec<u8> = Vec::new();
    let mut i: usize = 0;
    while i < 100
        invariant
            i <= 100,
            raw.len() == i,
        decreases 100 - i,
    {
        raw.push(i as u8);
        i = i + 1;
    }
    rng_from_seed(&raw)
}

#[allow(non_snake_case)]
impl MercurialSignatureScheme {
    /// The configured vector length.
    pub closed spec fn spec_ell(&self) -> nat {
        self.ell as nat
    }

    /// The generators are the fixed ones and the length is at least one.
    pub closed spec fn wf(&self) -> bool {
        &&& self.ell >= 1
        &&& self.P@ == 1
        &&& self.Phat@ == 1
    }

    /// Builds the scheme for vectors of length `el` over the fixed curve.
    pub fn new(el: usize) -> (s: MercurialSignatureScheme)
        requires
            el >= 1,
        ensures
            s.wf(),
            s.spec_ell() == el,
    {
        MercurialSignatureScheme { ell: el, P: g1_generator(), Phat: g2_generator() }
    }

    /// The configured vector length.
    pub fn ell(&self) -> (n: usize)
        ensures
            n == self.spec_ell(),
    {
        self.ell
    }

    /// Draws a uniform scalar in `[0, r)`.
    pub fn randomZp(&self, rng: &mut RAND_impl) -> (rho: Scalar)
        ensures
            rho.wf(),
    {
        scalar_random(rng)
    }

    /// Draws a random message: `ell` random multiples of the group-1
    /// generator.
    pub fn randomMessage(&self, rng: &mut RAND_impl) -> (M: Vec<G1Elem>)
        requires
            self.wf(),
        ensures
            M@.len() == self.spec_ell(),
            all_reduced(g1s_view(M@)),
    {
        let ell = self.ell;
        let mut M: Vec<G1Elem> = Vec::new();
        let mut j: usize = 0;
        while j < ell
            invariant
                j <= ell,
                M@.len() == j,
                self.wf(),
                ell == self.ell,
                forall|k: int| 0 <= k < j ==> (#[trigger] M@[k]).wf(),
            decreases ell - j,
        {
            let r = scalar_random(rng);
            let Mj = g1_mul(&self.P, &r);
            M.push(Mj);
            j = j + 1;
        }
        proof {
            assert forall|i: int| 0 <= i < g1s_view(M@).len() implies reduced(
                #[trigger] g1s_view(M@)[i],
            ) by {
                assert(g1s_view(M@)[i] == M@[i]@);
            }
        }
        M
    }

    /// Generates a matched key pair: `ell` uniform secret scalars and, for
    /// each, the corresponding multiple of the group-2 generator, so that
    /// the two vectors carry the same residues.
    pub fn KeyGen(&self, rng: &mut RAND_impl) -> (kp: (Vec<Scalar>, Vec<G2Elem>))
        requires
            self.wf(),
        ensures
            kp.0@.len() == self.spec_ell(),
            kp.1@.len() == self.spec_ell(),
            all_reduced(scalars_view(kp.0@)),
            g2s_view(kp.1@) == scalars_view(kp.0@),
    {
        let ell = self.ell;
        let mut sk: Vec<Scalar> = Vec::new();
        let mut pk: Vec<G2Elem> = Vec::new();
        let mut j: usize = 0;
        while j < ell
            invariant
                j <= ell,
                sk@.len() == j,
                pk@.len() == j,
                self.wf(),
                ell == self.ell,
                forall|k: int| 0 <= k < j ==> (#[trigger] sk@[k]).wf(),
                forall|k: int| 0 <= k < j ==> (#[trigger] pk@[k])@ == sk@[k]@,
            decreases ell - j,
        {
            let x = scalar_random(rng);
            let w = g2_mul(&self.Phat, &x);
            proof {
                lemma_small_mod(x@, group_order());
            }
            sk.push(x);
            pk.push(w);
            j = j + 1;
        }
        proof {
            assert forall|i: int| 0 <= i < scalars_view(sk@).len() implies reduced(
                #[trigger] scalars_view(sk@)[i],
            ) by {
                assert(scalars_view(sk@)[i] == sk@[i]@);
            }
            assert(g2s_view(pk@) =~= scalars_view(sk@));
        }
        (sk, pk)
    }

    /// Signs a message under a secret key. Vectors of the wrong length are
    /// rejected before any arithmetic; otherwise the signature satisfies
    /// the verification equations against the secret residues.
    pub fn Sign(&self, sk: &Vec<Scalar>, M: &Vec<G1Elem>, rng: &mut RAND_impl) -> (res: Result<
        signature,
        MercurialSignatureError,
    >)
        requires
            self.wf(),
            all_reduced(scalars_view(sk@)),
            all_reduced(g1s_view(M@)),
        ensures
            res is Ok <==> (sk@.len() == self.spec_ell() && M@.len() == self.spec_ell()),
            res matches Err(e) ==> e == MercurialSignatureError::InvalidInput,
            res matches Ok(sigma) ==> sigma.wf() && spec_verifies(
                scalars_view(sk@),
                g1s_view(M@),
                sigma@.0,
                sigma@.1,
                sigma@.2,
            ),
    {
        if sk.len() != self.ell || M.len() != self.ell {
            return Err(MercurialSignatureError::InvalidInput);
        }
        let ghost skv = scalars_view(sk@);
        let ghost mv = g1s_view(M@);
        let y = random_nonzero(rng);
        let y_inv = scalar_invert(&y);
        proof {
            assert(skv[0] == sk@[0]@);
            assert(mv[0] == M@[0]@);
            assert(reduced(skv[0]));
            assert(reduced(mv[0]));
        }
        let mut Z = g1_mul(&M[0], &sk[0]);
        proof {
            assert(skv.take(1).drop_last() =~= skv.take(0));
            assert(mv.take(1).drop_last() =~= mv.take(0));
            assert(dot(skv.take(0), mv.take(0)) == 0);
            assert(skv.take(1).last() == skv[0]);
            assert(mv.take(1).last() == mv[0]);
            assert(dot(skv.take(1), mv.take(1)) == skv[0] * mv[0]);
            assert(mv[0] * skv[0] == skv[0] * mv[0]) by (nonlinear_arith);
            lemma_mod_twice((skv[0] * mv[0]) as int, group_order() as int);
        }
        let mut i: usize = 1;
        while i < self.ell
            invariant
                1 <= i <= self.ell,
                self.wf(),
                sk@.len() == self.spec_ell(),
                M@.len() == self.spec_ell(),
                skv == scalars_view(sk@),
                mv == g1s_view(M@),
                all_reduced(skv),
                all_reduced(mv),
                Z.wf(),
                Z@ == dot(skv.take(i as int), mv.take(i as int)) % group_order(),
            decreases self.ell - i,
        {
            proof {
                let ii = i as int;
                assert(skv[ii] == sk@[ii]@);
                assert(mv[ii] == M@[ii]@);
                assert(reduced(skv[ii]));
                assert(reduced(mv[ii]));
            }
            let t = g1_mul(&M[i], &sk[i]);
            let znext = g1_add(&Z, &t);
            proof {
                let r = group_order() as int;
                let ii = i as int;
                let d = dot(skv.take(ii), mv.take(ii)) as int;
                let p = (skv[ii] * mv[ii]) as int;
                assert(skv.take(ii + 1).drop_last() =~= skv.take(ii));
                assert(mv.take(ii + 1).drop_last() =~= mv.take(ii));
                assert(skv.take(ii + 1).last() == skv[ii]);
                assert(mv.take(ii + 1).last() == mv[ii]);
                assert(dot(skv.take(ii + 1), mv.take(ii + 1)) as int == d + p);
                assert(mv[ii] * skv[ii] == skv[ii] * mv[ii]) by (nonlinear_arith);
                assert(t@ as int == p % r);
                lemma_add_mod_noop(d, p, r);
                assert(znext@ as int == (d % r + p % r) % r);
                assert(znext@ == dot(skv.take(ii + 1), mv.take(ii + 1)) % group_order());
            }
            Z = znext;
            i = i + 1;
        }
        proof {
            assert(skv.take(skv.len() as int) =~= skv);
            assert(mv.take(mv.len() as int) =~= mv);
        }
        let zfin = g1_mul(&Z, &y);
        let yanchor = g1_mul(&self.P, &y_inv);
        let yhat_anchor = g2_mul(&self.Phat, &y_inv);
        proof {
            lemma_small_mod(y_inv@, group_order());
            lemma_sign_verifies(skv, mv, y@, y_inv@);
        }
        Ok(signature { Z: zfin, Y: yanchor, Yhat: yhat_anchor })
    }

    /// Checks the two pairing equations of the scheme: the product of the
    /// component pairings must equal the pairing of the group-2 anchor with
    /// `Z`, and the two anchors must encode the same hidden factor.
    /// Vectors of the wrong length are rejected before any arithmetic;
    /// a failed check is a normal `Ok(false)` outcome, not an error.
    pub fn Verify(&self, pk: &Vec<G2Elem>, M: &Vec<G1Elem>, sigma: &signature) -> (res: Result<
        bool,
        MercurialSignatureError,
    >)
        requires
            self.wf(),
            all_reduced(g2s_view(pk@)),
            all_reduced(g1s_view(M@)),
            sigma.wf(),
        ensures
            res is Ok <==> (pk@.len() == self.spec_ell() && M@.len() == self.spec_ell()),
            res matches Err(e) ==> e == MercurialSignatureError::InvalidInput,
            res matches Ok(b) ==> b == spec_verifies(
                g2s_view(pk@),
                g1s_view(M@),
                sigma@.0,
                sigma@.1,
                sigma@.2,
            ),
    {
        if pk.len() != self.ell || M.len() != self.ell {
            return Err(MercurialSignatureError::InvalidInput);
        }
        let ghost pkv = g2s_view(pk@);
        let ghost mv = g1s_view(M@);
        let mut q1 = gt_one();
        proof {
            assert(dot(pkv.take(0), mv.take(0)) == 0);
        }
        let mut i: usize = 0;
        while i < self.ell
            invariant
                i <= self.ell,
                self.wf(),
                pk@.len() == self.spec_ell(),
                M@.len() == self.spec_ell(),
                pkv == g2s_view(pk@),
                mv == g1s_view(M@),
                all_reduced(pkv),
                all_reduced(mv),
                q1.wf(),
                q1@ == dot(pkv.take(i as int), mv.take(i as int)) % group_order(),
            decreases self.ell - i,
        {
            proof {
                let ii = i as int;
                assert(pkv[ii] == pk@[ii]@);
                assert(mv[ii] == M@[ii]@);
                assert(reduced(pkv[ii]));
                assert(reduced(mv[ii]));
            }
            let t = if g2_is_zero(&pk[i]) {
                gt_one()
            } else {
                pairing(&pk[i], &M[i])
            };
            let qnext = gt_mul(&q1, &t);
            proof {
                let r = group_order() as int;
                let ii = i as int;
                let d = dot(pkv.take(ii), mv.take(ii)) as int;
                let p = (pkv[ii] * mv[ii]) as int;
                assert(pkv.take(ii + 1).drop_last() =~= pkv.take(ii));
                assert(mv.take(ii + 1).drop_last() =~= mv.take(ii));
                assert(pkv.take(ii + 1).last() == pkv[ii]);
                assert(mv.take(ii + 1).last() == mv[ii]);
                assert(dot(pkv.take(ii + 1), mv.take(ii + 1)) as int == d + p);
                assert(t@ as int == p % r);
                lemma_add_mod_noop(d, p, r);
                assert(qnext@ as int == (d % r + p % r) % r);
                assert(qnext@ == dot(pkv.take(ii + 1), mv.take(ii + 1)) % group_order());
            }
            q1 = qnext;
            i = i + 1;
        }
        proof {
            assert(pkv.take(pkv.len() as int) =~= pkv);
            assert(mv.take(mv.len() as int) =~= mv);
        }
        let yhat_zero = g2_is_zero(&sigma.Yhat);
        let q2 = if yhat_zero {
            gt_one()
        } else {
            pairing(&sigma.Yhat, &sigma.Z)
        };
        let q3 = pairing(&self.Phat, &sigma.Y);
        let q4 = if yhat_zero {
            gt_one()
        } else {
            pairing(&sigma.Yhat, &self.P)
        };
        let b1 = gt_equals(&q1, &q2);
        let b2 = gt_equals(&q3, &q4);
        proof {
            lemma_small_mod(sigma@.1, group_order());
            lemma_small_mod(sigma@.2, group_order());
        }
        Ok(b1 && b2)
    }

    /// Converts a secret key: every residue is multiplied by `rho` modulo
    /// the group order. A zero `rho` degenerates the key; keeping it
    /// nonzero is the caller's obligation, not validated here.
    pub fn ConvertSK(&self, sk: Vec<Scalar>, rho: &Scalar) -> (new_sk: Vec<Scalar>)
        requires
            self.wf(),
            all_reduced(scalars_view(sk@)),
            sk@.len() == self.spec_ell(),
            rho.wf(),
        ensures
            new_sk@.len() == self.spec_ell(),
            scalars_view(new_sk@) == scale(scalars_view(sk@), rho@),
            all_reduced(scalars_view(new_sk@)),
    {
        let ghost skv = scalars_view(sk@);
        let mut out: Vec<Scalar> = Vec::new();
        let mut i: usize = 0;
        while i < self.ell
            invariant
                i <= self.ell,
                sk@.len() == self.spec_ell(),
                out@.len() == i,
                self.wf(),
                rho.wf(),
                skv == scalars_view(sk@),
                all_reduced(skv),
                forall|k: int|
                    0 <= k < i ==> (#[trigger] out@[k])@ == (skv[k] * rho@) % group_order(),
            decreases self.ell - i,
        {
            proof {
                assert(skv[i as int] == sk@[i as int]@);
                assert(reduced(skv[i as int]));
            }
            let t = scalar_modmul(&sk[i], rho);
            out.push(t);
            i = i + 1;
        }
        proof {
            assert forall|k: int| 0 <= k < out@.len() implies scalars_view(out@)[k] == scale(
                skv,
                rho@,
            )[k] by {
                assert(scalars_view(out@)[k] == out@[k]@);
                assert(scale(skv, rho@)[k] == (skv[k] * rho@) % group_order());
            }
            assert(scalars_view(out@) =~= scale(skv, rho@));
            assert forall|k: int| 0 <= k < scalars_view(out@).len() implies reduced(
                #[trigger] scalars_view(out@)[k],
            ) by {
                lemma_mod_division_less_than_divisor((skv[k] * rho@) as int, group_order() as int);
            }
        }
        out
    }

    /// Converts a public key: every discrete logarithm is multiplied by
    /// `rho` modulo the group order, in lockstep with the matching secret
    /// key. A zero `rho` degenerates the key; keeping it nonzero is the
    /// caller's obligation, not validated here.
    pub fn ConvertPK(&self, pk: Vec<G2Elem>, rho: &Scalar) -> (new_pk: Vec<G2Elem>)
        requires
            self.wf(),
            all_reduced(g2s_view(pk@)),
            pk@.len() == self.spec_ell(),
            rho.wf(),
        ensures
            new_pk@.len() == self.spec_ell(),
            g2s_view(new_pk@) == scale(g2s_view(pk@), rho@),
            all_reduced(g2s_view(new_pk@)),
    {
        let ghost pkv = g2s_view(pk@);
        let mut out: Vec<G2Elem> = Vec::new();
        let mut i: usize = 0;
        while i < self.ell
            invariant
                i <= self.ell,
                pk@.len() == self.spec_ell(),
                out@.len() == i,
                self.wf(),
                rho.wf(),
                pkv == g2s_view(pk@),
                all_reduced(pkv),
                forall|k: int|
                    0 <= k < i ==> (#[trigger] out@[k])@ == (pkv[k] * rho@) % group_order(),
            decreases self.ell - i,
        {
            proof {
                assert(pkv[i as int] == pk@[i as int]@);
                assert(reduced(pkv[i as int]));
            }
            let t = g2_mul(&pk[i], rho);
            out.push(t);
            i = i + 1;
        }
        proof {
            assert forall|k: int| 0 <= k < out@.len() implies g2s_view(out@)[k] == scale(
                pkv,
                rho@,
            )[k] by {
                assert(g2s_view(out@)[k] == out@[k]@);
                assert(scale(pkv, rho@)[k] == (pkv[k] * rho@) % group_order());
            }
            assert(g2s_view(out@) =~= scale(pkv, rho@));
            assert forall|k: int| 0 <= k < g2s_view(out@).len() implies reduced(
                #[trigger] g2s_view(out@)[k],
            ) by {
                lemma_mod_division_less_than_divisor((pkv[k] * rho@) as int, group_order() as int);
            }
        }
        out
    }

    /// Re-randomizes a signature to match a public key converted with the
    /// same `rho`, for the unchanged message: `Z` is scaled by `rho` and a
    /// fresh blinding `psi`, the anchors by the inverse of `psi`. Keeping
    /// `rho` nonzero — the same one handed to the public-key conversion —
    /// is the caller's obligation, not validated here.
    pub fn ConvertSignature(&self, sigma: signature, rho: &Scalar, rng: &mut RAND_impl) -> (s2:
        signature)
        requires
            self.wf(),
            sigma.wf(),
            rho.wf(),
        ensures
            s2.wf(),
            exists|psi: nat, psii: nat| rerandomized(sigma@, rho@, psi, psii, s2@),
    {
        let psi = random_nonzero(rng);
        let psi_inv = scalar_invert(&psi);
        let z1 = g1_mul(&sigma.Z, rho);
        let z2 = g1_mul(&z1, &psi);
        let y2 = g1_mul(&sigma.Y, &psi_inv);
        let yh2 = g2_mul(&sigma.Yhat, &psi_inv);
        let out = signature { Z: z2, Y: y2, Yhat: yh2 };
        proof {
            assert(rerandomized(sigma@, rho@, psi@, psi_inv@, out@));
        }
        out
    }

    /// Moves a message to another representative of its equivalence class:
    /// every component is scaled by `mu`, and the signature is
    /// re-randomized to match, under the unchanged public key. Keeping
    /// `mu` nonzero is the caller's obligation, not validated here.
    pub fn ChangeRepresentation(
        &self,
        M: Vec<G1Elem>,
        sigma: signature,
        mu: &Scalar,
        rng: &mut RAND_impl,
    ) -> (p: (Vec<G1Elem>, signature))
        requires
            self.wf(),
            all_reduced(g1s_view(M@)),
            M@.len() == self.spec_ell(),
            sigma.wf(),
            mu.wf(),
        ensures
            p.0@.len() == self.spec_ell(),
            g1s_view(p.0@) == scale(g1s_view(M@), mu@),
            all_reduced(g1s_view(p.0@)),
            p.1.wf(),
            exists|psi: nat, psii: nat| rerandomized(sigma@, mu@, psi, psii, p.1@),
    {
        let ghost mv = g1s_view(M@);
        let psi = random_nonzero(rng);
        let psi_inv = scalar_invert(&psi);
        let mut new_m: Vec<G1Elem> = Vec::new();
        let mut i: usize = 0;
        while i < self.ell
            invariant
                i <= self.ell,
                M@.len() == self.spec_ell(),
                new_m@.len() == i,
                self.wf(),
                mu.wf(),
                mv == g1s_view(M@),
                all_reduced(mv),
                forall|k: int|
                    0 <= k < i ==> (#[trigger] new_m@[k])@ == (mv[k] * mu@) % group_order(),
            decreases self.ell - i,
        {
            proof {
                assert(mv[i as int] == M@[i as int]@);
                assert(reduced(mv[i as int]));
            }
            let t = g1_mul(&M[i], mu);
            new_m.push(t);
            i = i + 1;
        }
        proof {
            assert forall|k: int| 0 <= k < new_m@.len() implies g1s_view(new_m@)[k] == scale(
                mv,
                mu@,
            )[k] by {
                assert(g1s_view(new_m@)[k] == new_m@[k]@);
                assert(scale(mv, mu@)[k] == (mv[k] * mu@) % group_order());
            }
            assert(g1s_view(new_m@) =~= scale(mv, mu@));
            assert forall|k: int| 0 <= k < g1s_view(new_m@).len() implies reduced(
                #[trigger] g1s_view(new_m@)[k],
            ) by {
                lemma_mod_division_less_than_divisor((mv[k] * mu@) as int, group_order() as int);
            }
        }
        let z1 = g1_mul(&sigma.Z, mu);
        let z2 = g1_mul(&z1, &psi);
        let y2 = g1_mul(&sigma.Y, &psi_inv);
        let yh2 = g2_mul(&sigma.Yhat, &psi_inv);
        let out = signature { Z: z2, Y: y2, Yhat: yh2 };
        proof {
            assert(rerandomized(sigma@, mu@, psi@, psi_inv@, out@));
        }
        (new_m, out)
    }
}

} // verus!
