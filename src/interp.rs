//! Lagrange interpolation in the exponent, for either group.
use crate::curve::{
    fr, fr_add, fr_from_u64, fr_inverse, fr_modulus, fr_mul, fr_one, fr_sub, fr_val, g1_add,
    g1_log, g1_mul, g1_zero, g2_add, g2_log, g2_mul, g2_zero,
};
use crate::error::Error;
use pairing::bls12_381::{Fr, G1, G2};
use vstd::arithmetic::div_mod::{
    lemma_mod_self_0, lemma_mod_twice, lemma_mul_mod_noop_left, lemma_mul_mod_noop_right,
    lemma_small_mod,
};
use vstd::prelude::*;

verus! {

/// A group of prime order `fr_modulus()` whose elements can be added and
/// multiplied by a scalar.
pub trait GroupElement: Sized {
    /// The discrete logarithm of the element.
    spec fn log(&self) -> int;

    fn identity() -> (r: Self)
        ensures
            r.log() == 0,
    ;

    fn add_elem(&self, o: &Self) -> (r: Self)
        ensures
            r.log() == fr(self.log() + o.log()),
    ;

    fn mul_scalar(&self, s: &Fr) -> (r: Self)
        ensures
            r.log() == fr(self.log() * fr_val(*s)),
    ;
}

impl GroupElement for G1 {
    open spec fn log(&self) -> int {
        g1_log(*self)
    }

    fn identity() -> (r: Self) {
        g1_zero()
    }

    fn add_elem(&self, o: &Self) -> (r: Self) {
        g1_add(self, o)
    }

    fn mul_scalar(&self, s: &Fr) -> (r: Self) {
        g1_mul(self, s)
    }
}

impl GroupElement for G2 {
    open spec fn log(&self) -> int {
        g2_log(*self)
    }

    fn identity() -> (r: Self) {
        g2_zero()
    }

    fn add_elem(&self, o: &Self) -> (r: Self) {
        g2_add(self, o)
    }

    fn mul_scalar(&self, s: &Fr) -> (r: Self) {
        g2_mul(self, s)
    }
}

/// The inverse of `a` modulo the group order.
pub open spec fn fr_inv(a: int) -> int {
    choose|b: int| 0 <= b < fr_modulus() && #[trigger] fr(a * b) == 1
}

/// The scalar that stands for the external index `i`: the master value sits
/// at zero, so index `i` sits at `i + 1`.
pub open spec fn index_scalar(i: u64) -> int {
    i as int + 1
}

/// The scalars of the first `n` indices of `samples`.
pub open spec fn sample_xs<C>(samples: Seq<(u64, C)>, n: int) -> Seq<int> {
    Seq::new(n as nat, |k: int| index_scalar(samples[k].0))
}

/// The logarithms of the first `n` points of `samples`.
pub open spec fn sample_logs<C: GroupElement>(samples: Seq<(u64, C)>, n: int) -> Seq<int> {
    Seq::new(n as nat, |k: int| samples[k].1.log())
}

/// Whether two of the first `n` indices of `samples` are equal.
pub open spec fn has_duplicate<C>(samples: Seq<(u64, C)>, n: int) -> bool {
    exists|a: int, b: int| 0 <= a < b < n && #[trigger] samples[a].0 == #[trigger] samples[b].0
}

/// The product over `j < n` with `xs[j] != xs[i]` of `xs[j] / (xs[j] - xs[i])`:
/// the value at zero of the Lagrange basis polynomial of `xs[i]`, taken over
/// the first `n` points.
pub open spec fn lagrange_coeff(xs: Seq<int>, i: int, n: int) -> int
    decreases n,
{
    if n <= 0 {
        1
    } else {
        let l = lagrange_coeff(xs, i, n - 1);
        if xs[n - 1] == xs[i] {
            l
        } else {
            fr(fr(l * xs[n - 1]) * fr_inv(fr(xs[n - 1] - xs[i])))
        }
    }
}

/// The sum over `k < n` of `lagrange_coeff(xs, k, xs.len()) * ls[k]`.
pub open spec fn interpolation_sum(xs: Seq<int>, ls: Seq<int>, n: int) -> int
    decreases n,
{
    if n <= 0 {
        0
    } else {
        fr(
            interpolation_sum(xs, ls, n - 1) + fr(ls[n - 1] * lagrange_coeff(
                xs,
                n - 1,
                xs.len() as int,
            )),
        )
    }
}

proof fn lemma_modulus_bounds()
    ensures
        fr_modulus() > 0x1_0000_0000_0000_0000 * 2,
{
}

/// The inverse that a computation found is the one that `fr_inv` names.
proof fn lemma_inverse_unique(a: int, b: int)
    requires
        0 <= b < fr_modulus(),
        fr(a * b) == 1,
    ensures
        b == fr_inv(a),
{
    let m = fr_modulus();
    lemma_modulus_bounds();
    let c = fr_inv(a);
    assert(0 <= c < m && fr(a * c) == 1);
    lemma_mul_mod_noop_right(b, a * c, m);
    lemma_mul_mod_noop_left(a * b, c, m);
    assert(b * (a * c) == (a * b) * c) by (nonlinear_arith);
    lemma_small_mod(b as nat, m as nat);
    lemma_small_mod(c as nat, m as nat);
}

/// The difference of two distinct index scalars is invertible.
proof fn lemma_index_difference(x: u64, y: u64)
    requires
        x != y,
    ensures
        fr(index_scalar(x) - index_scalar(y)) != 0,
{
    let m = fr_modulus();
    lemma_modulus_bounds();
    let d = index_scalar(x) - index_scalar(y);
    if d > 0 {
        lemma_small_mod(d as nat, m as nat);
    } else {
        assert(fr(d) == fr(d + m)) by {
            lemma_mod_self_0(m);
            vstd::arithmetic::div_mod::lemma_mod_adds(d, m, m);
        }
        lemma_small_mod((d + m) as nat, m as nat);
    }
}

/// Maps the external index `i` to the scalar `i + 1`.
pub fn into_fr_plus_1(i: u64) -> (r: Fr)
    ensures
        fr_val(r) == index_scalar(i),
{
    let one = fr_one();
    let x = fr_from_u64(i);
    let r = fr_add(&one, &x);
    proof {
        lemma_modulus_bounds();
        lemma_small_mod((1 + i) as nat, fr_modulus() as nat);
    }
    r
}

/// Given samples `(i, f(i + 1) * g)` of a polynomial `f` of degree `t - 1`
/// and a generator `g`, returns `f(0) * g`, computed from the first `t`
/// samples.
pub fn interpolate<C: GroupElement>(t: usize, samples: &Vec<(u64, C)>) -> (r: Result<C, Error>)
    ensures
        samples@.len() < t <==> r == Err::<C, Error>(Error::NotEnoughShares),
        samples@.len() >= t && has_duplicate(samples@, t as int) <==> r == Err::<C, Error>(
            Error::DuplicateEntry,
        ),
        r.is_ok() <==> samples@.len() >= t && !has_duplicate(samples@, t as int),
        r.is_ok() ==> r.unwrap().log() == interpolation_sum(
            sample_xs(samples@, t as int),
            sample_logs(samples@, t as int),
            t as int,
        ),
{
    if samples.len() < t {
        return Err(Error::NotEnoughShares);
    }
    let ghost xs = sample_xs(samples@, t as int);
    let ghost ls = sample_logs(samples@, t as int);
    let mut xs_fr: Vec<Fr> = Vec::new();
    let mut k: usize = 0;
    while k < t
        invariant
            k <= t <= samples@.len(),
            xs == sample_xs(samples@, t as int),
            xs_fr@.len() == k,
            forall|a: int| 0 <= a < k ==> fr_val(#[trigger] xs_fr@[a]) == xs[a],
        decreases t - k,
    {
        xs_fr.push(into_fr_plus_1(samples[k].0));
        k = k + 1;
    }
    let mut result = C::identity();
    let mut k: usize = 0;
    while k < t
        invariant
            k <= t <= samples@.len(),
            xs == sample_xs(samples@, t as int),
            ls == sample_logs(samples@, t as int),
            xs_fr@.len() == t,
            forall|a: int| 0 <= a < t ==> fr_val(#[trigger] xs_fr@[a]) == xs[a],
            !has_duplicate(samples@, k as int),
            result.log() == interpolation_sum(xs, ls, k as int),
        decreases t - k,
    {
        let mut m: usize = 0;
        while m < k
            invariant
                m <= k < t <= samples@.len(),
                forall|a: int| 0 <= a < m ==> samples@[a].0 != samples@[k as int].0,
            decreases k - m,
        {
            if samples[m].0 == samples[k].0 {
                assert(has_duplicate(samples@, t as int));
                return Err(Error::DuplicateEntry);
            }
            m = m + 1;
        }
        let mut l0 = fr_one();
        let mut j: usize = 0;
        while j < t
            invariant
                j <= t <= samples@.len(),
                k < t,
                xs == sample_xs(samples@, t as int),
                xs_fr@.len() == t,
                forall|a: int| 0 <= a < t ==> fr_val(#[trigger] xs_fr@[a]) == xs[a],
                fr_val(l0) == lagrange_coeff(xs, k as int, j as int),
            decreases t - j,
        {
            if samples[j].0 != samples[k].0 {
                let denom = fr_sub(&xs_fr[j], &xs_fr[k]);
                proof {
                    lemma_index_difference(samples@[j as int].0, samples@[k as int].0);
                    lemma_modulus_bounds();
                    lemma_mod_twice(xs[j as int] - xs[k as int], fr_modulus());
                }
                l0 = fr_mul(&l0, &xs_fr[j]);
                match fr_inverse(&denom) {
                    Some(inv) => {
                        proof {
                            lemma_inverse_unique(fr_val(denom), fr_val(inv));
                        }
                        l0 = fr_mul(&l0, &inv);
                    },
                    None => {},
                }
            }
            j = j + 1;
        }
        let term = samples[k].1.mul_scalar(&l0);
        result = result.add_elem(&term);
        k = k + 1;
        proof {
            assert forall|a: int, b: int| 0 <= a < b < k implies samples@[a].0
                != samples@[b].0 by {
                if b < k - 1 {
                    assert(!has_duplicate(samples@, (k - 1) as int));
                }
            }
        }
    }
    Ok(result)
}

} // verus!
