//! Trusted boundary around the pairing-curve arithmetic library.
//!
//! Scalars and group elements are opaque curve values paired with a ghost
//! model: a scalar carries its value modulo the group order, a source-group
//! element carries its discrete logarithm with respect to the fixed
//! generator of its group, and a target-group element carries its exponent
//! with respect to the pairing of the two generators. Each wrapper states,
//! over those models, what the underlying curve operation computes.

use vstd::prelude::*;
use miracl_core::bn254::big::BIG;
use miracl_core::bn254::ecp::ECP;
use miracl_core::bn254::ecp2::ECP2;
use miracl_core::bn254::fp12::FP12;
use miracl_core::bn254::pair;
use miracl_core::bn254::rom;
use miracl_core::rand::RAND;
use miracl_core::rand::RAND_impl;

use crate::algebra::group_order;
use crate::algebra::reduced;

verus! {

#[verifier::external_type_specification]
#[verifier::external_body]
pub struct ExBig(BIG);

#[verifier::external_type_specification]
#[verifier::external_body]
pub struct ExEcp(ECP);

#[verifier::external_type_specification]
#[verifier::external_body]
pub struct ExEcp2(ECP2);

#[verifier::external_type_specification]
#[verifier::external_body]
pub struct ExFp12(FP12);

#[verifier::external_type_specification]
#[verifier::external_body]
pub struct ExRand(RAND_impl);

/// Relies on BIG's Clone: needed so that scalars can be cloned; nothing is
/// claimed of the copy.
pub assume_specification[ <BIG as Clone>::clone ](b: &BIG) -> BIG;

/// Relies on ECP's Clone: needed so that group-1 elements can be cloned;
/// nothing is claimed of the copy.
pub assume_specification[ <ECP as Clone>::clone ](p: &ECP) -> ECP;

/// Relies on ECP2's Clone: needed so that group-2 elements can be cloned;
/// nothing is claimed of the copy.
pub assume_specification[ <ECP2 as Clone>::clone ](p: &ECP2) -> ECP2;

/// An element of the scalar field: a residue modulo the group order.
#[derive(Clone)]
pub struct Scalar {
    raw: BIG,
    v: Ghost<nat>,
}

impl View for Scalar {
    type V = nat;

    /// The residue this scalar stands for.
    closed spec fn view(&self) -> nat {
        self.v@
    }
}

impl Scalar {
    /// The held value is a residue modulo the group order.
    pub open spec fn wf(&self) -> bool {
        reduced(self@)
    }
}

/// An element of the first source group, a multiple of its generator.
#[derive(Clone)]
pub struct G1Elem {
    raw: ECP,
    d: Ghost<nat>,
}

impl View for G1Elem {
    type V = nat;

    /// Discrete logarithm with respect to the group-1 generator.
    closed spec fn view(&self) -> nat {
        self.d@
    }
}

impl G1Elem {
    /// The discrete logarithm is a residue modulo the group order.
    pub open spec fn wf(&self) -> bool {
        reduced(self@)
    }
}

/// An element of the second source group, a multiple of its generator.
#[derive(Clone)]
pub struct G2Elem {
    raw: ECP2,
    d: Ghost<nat>,
}

impl View for G2Elem {
    type V = nat;

    /// Discrete logarithm with respect to the group-2 generator.
    closed spec fn view(&self) -> nat {
        self.d@
    }
}

impl G2Elem {
    /// The discrete logarithm is a residue modulo the group order.
    pub open spec fn wf(&self) -> bool {
        reduced(self@)
    }
}

/// An element of the target group, a power of the pairing of the two
/// generators.
pub struct GtElem {
    raw: FP12,
    e: Ghost<nat>,
}

impl View for GtElem {
    type V = nat;

    /// Exponent with respect to the pairing of the two generators.
    closed spec fn view(&self) -> nat {
        self.e@
    }
}

impl GtElem {
    /// The exponent is a residue modulo the group order.
    pub open spec fn wf(&self) -> bool {
        reduced(self@)
    }
}

/// Relies on RAND_impl::new, RAND_impl::clean and RAND::seed: a generator
/// freshly initialised from the given entropy bytes. Nothing is promised
/// of the values it will produce.
#[verifier::external_body]
pub(crate) fn rng_from_seed(raw: &Vec<u8>) -> RAND_impl {
    let mut rng = RAND_impl::new();
    rng.clean();
    rng.seed(raw.len(), raw.as_slice());
    rng
}

/// Relies on BIG::randomnum over rom::CURVE_ORDER: a value drawn from the
/// generator, reduced modulo the group order.
#[verifier::external_body]
pub(crate) fn scalar_random(rng: &mut RAND_impl) -> (s: Scalar)
    ensures
        s.wf(),
{
    let order = BIG::new_ints(&rom::CURVE_ORDER);
    Scalar { raw: BIG::randomnum(&order, rng), v: Ghost(arbitrary()) }
}

/// Relies on BIG::new_int: the scalar one.
#[verifier::external_body]
pub(crate) fn scalar_one() -> (s: Scalar)
    ensures
        s@ == 1,
{
    Scalar { raw: BIG::new_int(1), v: Ghost(arbitrary()) }
}

/// Relies on BIG::iszilch: a reduced scalar is zero exactly when its
/// representation is the zero word vector.
#[verifier::external_body]
pub(crate) fn scalar_is_zero(s: &Scalar) -> (b: bool)
    requires
        s.wf(),
    ensures
        b == (s@ == 0),
{
    s.raw.iszilch()
}

/// Relies on BIG::modmul over rom::CURVE_ORDER: the product of the two
/// scalars, reduced modulo the group order.
#[verifier::external_body]
pub(crate) fn scalar_modmul(a: &Scalar, b: &Scalar) -> (c: Scalar)
    requires
        a.wf(),
        b.wf(),
    ensures
        c.wf(),
        c@ == (a@ * b@) % group_order(),
{
    let order = BIG::new_ints(&rom::CURVE_ORDER);
    Scalar { raw: BIG::modmul(&a.raw, &b.raw, &order), v: Ghost(arbitrary()) }
}

/// Relies on BIG::invmodp over rom::CURVE_ORDER, and on the group order
/// being prime: every nonzero residue has a multiplicative inverse, and
/// the call returns it, reduced.
#[verifier::external_body]
pub(crate) fn scalar_invert(a: &Scalar) -> (c: Scalar)
    requires
        a.wf(),
        a@ != 0,
    ensures
        c.wf(),
        (a@ * c@) % group_order() == 1,
{
    let order = BIG::new_ints(&rom::CURVE_ORDER);
    let mut inv = BIG::new_copy(&a.raw);
    inv.invmodp(&order);
    Scalar { raw: inv, v: Ghost(arbitrary()) }
}

/// Relies on ECP::generator: the fixed group-1 generator, of discrete
/// logarithm one.
#[verifier::external_body]
pub(crate) fn g1_generator() -> (p: G1Elem)
    ensures
        p.wf(),
        p@ == 1,
{
    G1Elem { raw: ECP::generator(), d: Ghost(arbitrary()) }
}

/// Relies on ECP::mul: scalar multiplication in a group of prime order,
/// so discrete logarithms multiply modulo the group order.
#[verifier::external_body]
pub(crate) fn g1_mul(p: &G1Elem, s: &Scalar) -> (q: G1Elem)
    requires
        p.wf(),
        s.wf(),
    ensures
        q.wf(),
        q@ == (p@ * s@) % group_order(),
{
    G1Elem { raw: p.raw.mul(&s.raw), d: Ghost(arbitrary()) }
}

/// Relies on ECP::add: the group law, so discrete logarithms add modulo
/// the group order.
#[verifier::external_body]
pub(crate) fn g1_add(a: &G1Elem, b: &G1Elem) -> (c: G1Elem)
    requires
        a.wf(),
        b.wf(),
    ensures
        c.wf(),
        c@ == (a@ + b@) % group_order(),
{
    let mut sum = a.raw.clone();
    sum.add(&b.raw);
    G1Elem { raw: sum, d: Ghost(arbitrary()) }
}

/// Relies on ECP2::generator: the fixed group-2 generator, of discrete
/// logarithm one.
#[verifier::external_body]
pub(crate) fn g2_generator() -> (p: G2Elem)
    ensures
        p.wf(),
        p@ == 1,
{
    G2Elem { raw: ECP2::generator(), d: Ghost(arbitrary()) }
}

/// Relies on ECP2::mul: scalar multiplication in a group of prime order,
/// so discrete logarithms multiply modulo the group order.
#[verifier::external_body]
pub(crate) fn g2_mul(p: &G2Elem, s: &Scalar) -> (q: G2Elem)
    requires
        p.wf(),
        s.wf(),
    ensures
        q.wf(),
        q@ == (p@ * s@) % group_order(),
{
    G2Elem { raw: p.raw.mul(&s.raw), d: Ghost(arbitrary()) }
}

/// Relies on ECP2::is_infinity: a multiple of the group-2 generator is the
/// identity exactly when its discrete logarithm is zero, the group having
/// prime order.
#[verifier::external_body]
pub(crate) fn g2_is_zero(q: &G2Elem) -> (b: bool)
    requires
        q.wf(),
    ensures
        b == (q@ == 0),
{
    q.raw.is_infinity()
}

/// Relies on FP12::new_int: the identity of the target group, of exponent
/// zero.
#[verifier::external_body]
pub(crate) fn gt_one() -> (t: GtElem)
    ensures
        t.wf(),
        t@ == 0,
{
    GtElem { raw: FP12::new_int(1), e: Ghost(arbitrary()) }
}

/// Relies on pair::ate followed by pair::fexp: the bilinear pairing, whose
/// exponent with respect to the pairing of the two generators is the
/// product of the two discrete logarithms, modulo the group order. The
/// group-2 argument must not be the identity: the Miller loop does not
/// guard that case (it does return the target-group identity for an
/// identity group-1 argument).
#[verifier::external_body]
pub(crate) fn pairing(q: &G2Elem, p: &G1Elem) -> (t: GtElem)
    requires
        q.wf(),
        q@ != 0,
        p.wf(),
    ensures
        t.wf(),
        t@ == (q@ * p@) % group_order(),
{
    GtElem { raw: pair::fexp(&pair::ate(&q.raw, &p.raw)), e: Ghost(arbitrary()) }
}

/// Relies on FP12::mul: multiplication in the target group, so exponents
/// add modulo the group order.
#[verifier::external_body]
pub(crate) fn gt_mul(a: &GtElem, b: &GtElem) -> (c: GtElem)
    requires
        a.wf(),
        b.wf(),
    ensures
        c.wf(),
        c@ == (a@ + b@) % group_order(),
{
    let mut prod = a.raw;
    prod.mul(&b.raw);
    GtElem { raw: prod, e: Ghost(arbitrary()) }
}

/// Relies on FP12::equals, and on the pairing of the two generators having
/// the full prime group order: two powers of it are equal exactly when
/// their reduced exponents are.
#[verifier::external_body]
pub(crate) fn gt_equals(a: &GtElem, b: &GtElem) -> (r: bool)
    requires
        a.wf(),
        b.wf(),
    ensures
        r == (a@ == b@),
{
    a.raw.equals(&b.raw)
}

} // verus!
