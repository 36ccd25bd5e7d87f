//! Typed façade over the BLS12-381 curve of the `pairing` crate.
//!
//! Every group element is modelled by its discrete logarithm with respect to
//! the group's fixed generator (`G1::one()`, `G2::one()`, and their pairing in
//! the target group), an integer modulo the prime group order `fr_modulus()`.
//! A scalar is modelled by its value modulo the same number.
use pairing::bls12_381::{Bls12, Fq12, Fr, FrRepr, G1, G1Compressed, G2, G2Compressed};
use pairing::{CurveAffine, CurveProjective, EncodedPoint, Engine, Field, PrimeField};
use rand::Rng;
use vstd::arithmetic::div_mod::{lemma_mod_twice, lemma_mul_mod_noop_left, lemma_mul_mod_noop_right};
use vstd::prelude::*;

verus! {

#[verifier::external_type_specification]
#[verifier::external_body]
pub struct ExFr(Fr);

#[verifier::external_type_specification]
#[verifier::external_body]
pub struct ExG1(G1);

#[verifier::external_type_specification]
#[verifier::external_body]
pub struct ExG2(G2);

#[verifier::external_type_specification]
#[verifier::external_body]
pub struct ExFq12(Fq12);

/// The order of the scalar field, and of each of the three groups.
pub open spec fn fr_modulus() -> int {
    let w: int = 0x1_0000_0000_0000_0000;
    ((0x73ed_a753_299d_7d48 * w + 0x3339_d808_09a1_d805) * w + 0x53bd_a402_fffe_5bfe) * w
        + 0xffff_ffff_0000_0001
}

/// The value of a scalar.
pub uninterp spec fn fr_val(x: Fr) -> int;

/// The discrete logarithm of a point of the first group.
pub uninterp spec fn g1_log(p: G1) -> int;

/// The discrete logarithm of a point of the second group.
pub uninterp spec fn g2_log(q: G2) -> int;

/// The discrete logarithm of an element of the target group, with respect to
/// the pairing of the two generators.
pub uninterp spec fn gt_log(x: Fq12) -> int;

/// The 48-byte compressed encoding of the point of the first group whose
/// logarithm is `k`.
pub uninterp spec fn g1_encoding(k: int) -> Seq<u8>;

/// The 96-byte uncompressed encoding of the point of the first group whose
/// logarithm is `k`.
pub uninterp spec fn g1_uncompressed(k: int) -> Seq<u8>;

/// The 96-byte compressed encoding of the point of the second group whose
/// logarithm is `k`.
pub uninterp spec fn g2_encoding(k: int) -> Seq<u8>;

/// The 192-byte uncompressed encoding of the point of the second group whose
/// logarithm is `k`.
pub uninterp spec fn g2_uncompressed(k: int) -> Seq<u8>;

/// The residue of `a` in `[0, fr_modulus())`.
pub open spec fn fr(a: int) -> int {
    a % fr_modulus()
}

/// Reducing twice is reducing once.
pub(crate) proof fn lemma_fr_idem(a: int)
    ensures
        fr(fr(a)) == fr(a),
{
    lemma_mod_twice(a, fr_modulus());
}

/// Reducing a factor before a product does not change the residue.
pub(crate) proof fn lemma_fr_mul(a: int, b: int)
    ensures
        fr(fr(a) * b) == fr(a * b),
        fr(a * fr(b)) == fr(a * b),
        fr(a * b) == fr(b * a),
{
    lemma_mul_mod_noop_left(a, b, fr_modulus());
    lemma_mul_mod_noop_right(a, b, fr_modulus());
    assert(a * b == b * a) by (nonlinear_arith);
}

/// Relies on `Field::zero`: the additive identity.
#[verifier::external_body]
pub(crate) fn fr_zero() -> (r: Fr)
    ensures
        fr_val(r) == 0,
{
    Fr::zero()
}

/// Relies on `Field::one`: the multiplicative identity.
#[verifier::external_body]
pub(crate) fn fr_one() -> (r: Fr)
    ensures
        fr_val(r) == 1,
{
    Fr::one()
}

/// Relies on `PrimeField::from_repr` on a 64-bit integer, which is always
/// below the modulus.
#[verifier::external_body]
pub(crate) fn fr_from_u64(x: u64) -> (r: Fr)
    ensures
        fr_val(r) == x,
{
    Fr::from_repr(FrRepr::from(x)).expect("a 64-bit integer is below the modulus")
}

/// Relies on `Field::add_assign`: addition modulo the field order.
#[verifier::external_body]
pub(crate) fn fr_add(a: &Fr, b: &Fr) -> (r: Fr)
    ensures
        fr_val(r) == fr(fr_val(*a) + fr_val(*b)),
{
    let mut r = *a;
    r.add_assign(b);
    r
}

/// Relies on `Field::sub_assign`: subtraction modulo the field order.
#[verifier::external_body]
pub(crate) fn fr_sub(a: &Fr, b: &Fr) -> (r: Fr)
    ensures
        fr_val(r) == fr(fr_val(*a) - fr_val(*b)),
{
    let mut r = *a;
    r.sub_assign(b);
    r
}

/// Relies on `Field::negate`: the additive inverse modulo the field order.
#[verifier::external_body]
pub(crate) fn fr_neg(a: &Fr) -> (r: Fr)
    ensures
        fr_val(r) == fr(-fr_val(*a)),
{
    let mut r = *a;
    r.negate();
    r
}

/// Relies on `Field::mul_assign`: multiplication modulo the field order.
#[verifier::external_body]
pub(crate) fn fr_mul(a: &Fr, b: &Fr) -> (r: Fr)
    ensures
        fr_val(r) == fr(fr_val(*a) * fr_val(*b)),
{
    let mut r = *a;
    r.mul_assign(b);
    r
}

/// Relies on `Field::inverse`: `None` exactly for zero, else the inverse.
#[verifier::external_body]
pub(crate) fn fr_inverse(a: &Fr) -> (r: Option<Fr>)
    ensures
        r.is_none() <==> fr(fr_val(*a)) == 0,
        r.is_some() ==> 0 <= fr_val(r.unwrap()) < fr_modulus(),
        r.is_some() ==> fr(fr_val(*a) * fr_val(r.unwrap())) == 1,
{
    a.inverse()
}

/// Relies on `PartialEq` of `Fr`: equal residues.
#[verifier::external_body]
pub(crate) fn fr_eq(a: &Fr, b: &Fr) -> (r: bool)
    ensures
        r == (fr(fr_val(*a)) == fr(fr_val(*b))),
{
    a == b
}

/// Relies on `rand::OsRng::new`, `None` when the operating system's random
/// source cannot be opened, and on `Rng::gen` of `Fr`, which draws a reduced
/// field element; nothing is known of its value. Once the source is open,
/// rand 0.4 offers no fallible draw: a later read error panics inside rand.
#[verifier::external_body]
pub(crate) fn random_fr() -> (r: Option<Fr>)
    ensures
        r.is_some() ==> 0 <= fr_val(r.unwrap()) < fr_modulus(),
{
    rand::OsRng::new().ok().map(|mut rng| rng.gen())
}

/// Relies on `CurveProjective::zero` of the first group: the identity.
#[verifier::external_body]
pub(crate) fn g1_zero() -> (r: G1)
    ensures
        g1_log(r) == 0,
{
    G1::zero()
}

/// Relies on `CurveProjective::one` of the first group: the generator.
#[verifier::external_body]
pub(crate) fn g1_one() -> (r: G1)
    ensures
        g1_log(r) == 1,
{
    G1::one()
}

/// Relies on `CurveProjective::add_assign` of the first group.
#[verifier::external_body]
pub(crate) fn g1_add(a: &G1, b: &G1) -> (r: G1)
    ensures
        g1_log(r) == fr(g1_log(*a) + g1_log(*b)),
{
    let mut r = *a;
    r.add_assign(b);
    r
}

/// Relies on `CurveProjective::mul_assign` of the first group: scalar multiplication.
#[verifier::external_body]
pub(crate) fn g1_mul(p: &G1, s: &Fr) -> (r: G1)
    ensures
        g1_log(r) == fr(g1_log(*p) * fr_val(*s)),
{
    let mut r = *p;
    r.mul_assign(*s);
    r
}

/// Relies on `PartialEq` of `G1`: the same point.
#[verifier::external_body]
pub(crate) fn g1_eq(a: &G1, b: &G1) -> (r: bool)
    ensures
        r == (fr(g1_log(*a)) == fr(g1_log(*b))),
{
    a == b
}

/// Relies on `CurveAffine::into_compressed` of the first group.
#[verifier::external_body]
pub(crate) fn g1_compress(p: &G1) -> (r: Vec<u8>)
    ensures
        r@ == g1_encoding(fr(g1_log(*p))),
        r@.len() == 48,
{
    p.into_affine().into_compressed().as_ref().to_vec()
}

/// Relies on `CurveAffine::into_uncompressed` of the first group.
#[verifier::external_body]
pub(crate) fn g1_uncompress_bytes(p: &G1) -> (r: Vec<u8>)
    ensures
        r@ == g1_uncompressed(fr(g1_log(*p))),
        r@.len() == 96,
{
    p.into_affine().into_uncompressed().as_ref().to_vec()
}

/// Relies on `EncodedPoint::into_affine` of `G1Compressed`: a valid encoding
/// decodes to the one point in the group that has it, any other is refused.
#[verifier::external_body]
pub(crate) fn g1_decompress(b: &[u8]) -> (r: Option<G1>)
    requires
        b@.len() == 48,
    ensures
        (exists|k: int| 0 <= k < fr_modulus() && g1_encoding(k) == b@) ==> r.is_some(),
        r.is_some() ==> g1_encoding(fr(g1_log(r.unwrap()))) == b@,
        r.is_some() ==> forall|k: int|
            0 <= k < fr_modulus() && g1_encoding(k) == b@ ==> k == fr(g1_log(r.unwrap())),
{
    let mut c = G1Compressed::empty();
    c.as_mut().copy_from_slice(b);
    c.into_affine().ok().map(|a| a.into_projective())
}

/// Relies on `CurveProjective::zero` of the second group: the identity.
#[verifier::external_body]
pub(crate) fn g2_zero() -> (r: G2)
    ensures
        g2_log(r) == 0,
{
    G2::zero()
}

/// Relies on `CurveProjective::add_assign` of the second group.
#[verifier::external_body]
pub(crate) fn g2_add(a: &G2, b: &G2) -> (r: G2)
    ensures
        g2_log(r) == fr(g2_log(*a) + g2_log(*b)),
{
    let mut r = *a;
    r.add_assign(b);
    r
}

/// Relies on `CurveProjective::mul_assign` of the second group: scalar multiplication.
#[verifier::external_body]
pub(crate) fn g2_mul(q: &G2, s: &Fr) -> (r: G2)
    ensures
        g2_log(r) == fr(g2_log(*q) * fr_val(*s)),
{
    let mut r = *q;
    r.mul_assign(*s);
    r
}

/// Relies on `PartialEq` of `G2`: the same point.
#[verifier::external_body]
pub(crate) fn g2_eq(a: &G2, b: &G2) -> (r: bool)
    ensures
        r == (fr(g2_log(*a)) == fr(g2_log(*b))),
{
    a == b
}

/// Relies on `CurveAffine::into_uncompressed` of the second group.
#[verifier::external_body]
pub(crate) fn g2_uncompress_bytes(q: &G2) -> (r: Vec<u8>)
    ensures
        r@ == g2_uncompressed(fr(g2_log(*q))),
        r@.len() == 192,
{
    q.into_affine().into_uncompressed().as_ref().to_vec()
}

/// Relies on `CurveAffine::into_compressed` of the second group.
#[verifier::external_body]
pub(crate) fn g2_compress(q: &G2) -> (r: Vec<u8>)
    ensures
        r@ == g2_encoding(fr(g2_log(*q))),
        r@.len() == 96,
{
    q.into_affine().into_compressed().as_ref().to_vec()
}

/// Relies on `EncodedPoint::into_affine` of `G2Compressed`: a valid encoding
/// decodes to the one point in the group that has it, any other is refused.
#[verifier::external_body]
pub(crate) fn g2_decompress(b: &[u8]) -> (r: Option<G2>)
    requires
        b@.len() == 96,
    ensures
        (exists|k: int| 0 <= k < fr_modulus() && g2_encoding(k) == b@) ==> r.is_some(),
        r.is_some() ==> g2_encoding(fr(g2_log(r.unwrap()))) == b@,
        r.is_some() ==> forall|k: int|
            0 <= k < fr_modulus() && g2_encoding(k) == b@ ==> k == fr(g2_log(r.unwrap())),
{
    let mut c = G2Compressed::empty();
    c.as_mut().copy_from_slice(b);
    c.into_affine().ok().map(|a| a.into_projective())
}

/// Relies on `Engine::pairing` of `Bls12`: bilinear, and the pairing of the
/// two generators generates the target group.
#[verifier::external_body]
pub(crate) fn pair(p: &G1, q: &G2) -> (r: Fq12)
    ensures
        gt_log(r) == fr(g1_log(*p) * g2_log(*q)),
{
    Bls12::pairing(*p, *q)
}

/// Relies on `PartialEq` of `Fq12`: the same element.
#[verifier::external_body]
pub(crate) fn gt_eq(a: &Fq12, b: &Fq12) -> (r: bool)
    ensures
        r == (fr(gt_log(*a)) == fr(gt_log(*b))),
{
    a == b
}

} // verus!
