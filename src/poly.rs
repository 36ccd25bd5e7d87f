//! Polynomials over the scalar field, and their commitments in the first group.
use crate::curve::{
    fr, fr_add, fr_eq, fr_modulus, fr_mul, fr_neg, fr_val, fr_zero, g1_add, g1_log, g1_mul, g1_one,
    g1_zero, random_fr,
};
use crate::error::Error;
use pairing::bls12_381::{Fr, G1};
use vstd::arithmetic::div_mod::{lemma_add_mod_noop, lemma_mod_twice, lemma_mul_mod_noop_left,
    lemma_mul_mod_noop_right, lemma_small_mod};
use vstd::prelude::*;

verus! {

/// The value at `x` of the polynomial with coefficients `cs`, lowest degree first.
pub open spec fn poly_value(cs: Seq<int>, x: int) -> int
    decreases cs.len(),
{
    if cs.len() == 0 {
        0
    } else {
        cs[0] + x * poly_value(cs.drop_first(), x)
    }
}

/// The values of a sequence of scalars.
pub open spec fn fr_vals(cs: Seq<Fr>) -> Seq<int> {
    cs.map_values(|c: Fr| fr_val(c))
}

/// The logarithms of a sequence of points of the first group.
pub open spec fn g1_logs(cs: Seq<G1>) -> Seq<int> {
    cs.map_values(|c: G1| g1_log(c))
}

/// The residues of a sequence of integers.
pub open spec fn residues(cs: Seq<int>) -> Seq<int> {
    cs.map_values(|c: int| fr(c))
}

/// One step of Horner's rule, in residues.
proof fn lemma_horner_step(p: int, x: int, c: int)
    ensures
        fr(fr(fr(p) * x) + c) == fr(c + x * p),
{
    let m = fr_modulus();
    lemma_mul_mod_noop_left(p, x, m);
    lemma_add_mod_noop(p * x, c, m);
    lemma_add_mod_noop(fr(p * x), c, m);
    lemma_mod_twice(p * x, m);
    assert(p * x == x * p) by (nonlinear_arith);
}

/// Reducing the coefficients does not change the residue of the value.
pub proof fn lemma_value_of_residues(cs: Seq<int>, x: int)
    ensures
        fr(poly_value(residues(cs), x)) == fr(poly_value(cs, x)),
    decreases cs.len(),
{
    let m = fr_modulus();
    if cs.len() > 0 {
        let rest = cs.drop_first();
        assert(residues(cs).drop_first() =~= residues(rest));
        lemma_value_of_residues(rest, x);
        let a = poly_value(residues(rest), x);
        let b = poly_value(rest, x);
        lemma_mul_mod_noop_right(x, a, m);
        lemma_mul_mod_noop_right(x, b, m);
        lemma_add_mod_noop(fr(cs[0]), x * a, m);
        lemma_add_mod_noop(cs[0], x * b, m);
        lemma_mod_twice(cs[0], m);
    }
}

/// Adding residues and reducing is reducing the sum.
proof fn lemma_add_residues(a: int, x: int)
    ensures
        fr(fr(a) + fr(x)) == fr(a + x),
{
    lemma_add_mod_noop(a, x, fr_modulus());
}

proof fn lemma_suffix_step(cs: Seq<int>, i: int)
    requires
        0 < i <= cs.len(),
    ensures
        cs.subrange(i - 1, cs.len() as int).drop_first() == cs.subrange(i, cs.len() as int),
        cs.subrange(i - 1, cs.len() as int)[0] == cs[i - 1],
{
    assert(cs.subrange(i - 1, cs.len() as int).drop_first() =~= cs.subrange(i, cs.len() as int));
}

/// The coefficient of degree `k` of `cs`: zero beyond its end.
pub open spec fn coeff_at(cs: Seq<int>, k: int) -> int {
    if 0 <= k < cs.len() {
        cs[k]
    } else {
        0
    }
}

/// The sum over `i < n` of `a_i * b_(k - i)`.
pub open spec fn convolution(a: Seq<int>, b: Seq<int>, k: int, n: int) -> int
    decreases n,
{
    if n <= 0 {
        0
    } else {
        convolution(a, b, k, n - 1) + coeff_at(a, n - 1) * coeff_at(b, k - (n - 1))
    }
}

/// A polynomial over the scalar field; its coefficients are secret.
pub struct Poly {
    /// The coefficients, lowest degree first.
    pub coeff: Vec<Fr>,
}

/// A commitment to a polynomial: its coefficients times the generator of the
/// first group.
#[derive(Debug, PartialEq, Eq)]
pub struct Commitment {
    /// The committed coefficients, lowest degree first.
    pub coeff: Vec<G1>,
}

impl Poly {
    /// Whether the polynomial has at least one coefficient.
    pub open spec fn wf(&self) -> bool {
        self.coeff@.len() >= 1
    }

    /// The values of the coefficients.
    pub open spec fn vals(&self) -> Seq<int> {
        fr_vals(self.coeff@)
    }

    /// The constant polynomial `c`.
    pub fn constant(c: Fr) -> (r: Poly)
        ensures
            r.wf(),
            r.vals() == seq![fr_val(c)],
    {
        let mut coeff: Vec<Fr> = Vec::new();
        coeff.push(c);
        let r = Poly { coeff };
        assert(r.vals() =~= seq![fr_val(c)]);
        r
    }

    /// A random polynomial of the given degree, whose leading coefficient is not zero.
    pub fn random(degree: usize) -> (r: Result<Poly, Error>)
        ensures
            degree == usize::MAX <==> r == Err::<Poly, Error>(Error::DegreeTooHigh),
            r.is_ok() ==> r.unwrap().wf() && r.unwrap().coeff@.len() == degree + 1,
            r.is_ok() ==> fr(r.unwrap().vals()[degree as int]) != 0,
            r.is_err() ==> r == Err::<Poly, Error>(Error::DegreeTooHigh) || r == Err::<
                Poly,
                Error,
            >(Error::Sampling),
    {
        if degree == usize::MAX {
            return Err(Error::DegreeTooHigh);
        }
        let mut coeff: Vec<Fr> = Vec::new();
        let mut i: usize = 0;
        while i <= degree
            invariant
                degree < usize::MAX,
                i <= degree + 1,
                coeff@.len() == i,
            decreases degree + 1 - i,
        {
            match random_fr() {
                Some(c) => coeff.push(c),
                None => return Err(Error::Sampling),
            }
            i = i + 1;
        }
        Poly::from_sampled(coeff)
    }

    /// The polynomial with the sampled coefficients, lowest degree first;
    /// `Sampling` if the leading one is zero, so that the degree would be lower.
    pub fn from_sampled(coeff: Vec<Fr>) -> (r: Result<Poly, Error>)
        requires
            coeff@.len() >= 1,
        ensures
            r == Err::<Poly, Error>(Error::Sampling) <==> fr(fr_val(coeff@.last())) == 0,
            r.is_err() ==> r == Err::<Poly, Error>(Error::Sampling),
            r.is_ok() ==> r.unwrap().coeff@ == coeff@,
    {
        let zero = fr_zero();
        proof {
            lemma_small_mod(0, fr_modulus() as nat);
        }
        if fr_eq(&coeff[coeff.len() - 1], &zero) {
            return Err(Error::Sampling);
        }
        Ok(Poly { coeff })
    }

    /// The degree `t` of the polynomial: it has `t + 1` coefficients.
    pub fn degree(&self) -> (r: usize)
        requires
            self.wf(),
        ensures
            r == self.coeff@.len() - 1,
    {
        self.coeff.len() - 1
    }

    /// The value at `x`, by Horner's rule.
    pub fn evaluate(&self, x: &Fr) -> (r: Fr)
        ensures
            fr_val(r) == fr(poly_value(self.vals(), fr_val(*x))),
    {
        let ghost cs = self.vals();
        let ghost xv = fr_val(*x);
        let mut y = fr_zero();
        let mut i: usize = self.coeff.len();
        assert(cs.subrange(i as int, cs.len() as int) =~= Seq::<int>::empty());
        proof {
            lemma_small_mod(0, fr_modulus() as nat);
        }
        while i > 0
            invariant
                i <= self.coeff@.len(),
                cs == self.vals(),
                xv == fr_val(*x),
                fr_val(y) == fr(poly_value(cs.subrange(i as int, cs.len() as int), xv)),
            decreases i,
        {
            let ghost p = poly_value(cs.subrange(i as int, cs.len() as int), xv);
            let t = fr_mul(&y, x);
            y = fr_add(&t, &self.coeff[i - 1]);
            proof {
                lemma_suffix_step(cs, i as int);
                lemma_horner_step(p, xv, cs[i - 1]);
                lemma_mul_mod_noop_left(p, xv, fr_modulus());
                lemma_mod_twice(p * xv, fr_modulus());
            }
            i = i - 1;
        }
        assert(cs.subrange(0, cs.len() as int) =~= cs);
        y
    }

    /// The sum of two polynomials.
    pub fn add(&self, o: &Poly) -> (r: Poly)
        requires
            self.wf(),
            o.wf(),
        ensures
            r.wf(),
            r.coeff@.len() == if self.coeff@.len() >= o.coeff@.len() {
                self.coeff@.len()
            } else {
                o.coeff@.len()
            },
            forall|k: int|
                0 <= k < r.coeff@.len() ==> #[trigger] r.vals()[k] == fr(
                    coeff_at(self.vals(), k) + coeff_at(o.vals(), k),
                ),
    {
        let n: usize = if self.coeff.len() >= o.coeff.len() {
            self.coeff.len()
        } else {
            o.coeff.len()
        };
        let zero = fr_zero();
        let mut coeff: Vec<Fr> = Vec::new();
        let mut k: usize = 0;
        while k < n
            invariant
                k <= n,
                n == self.coeff@.len() || n == o.coeff@.len(),
                self.coeff@.len() <= n && o.coeff@.len() <= n,
                fr_val(zero) == 0,
                coeff@.len() == k,
                forall|j: int|
                    0 <= j < k ==> fr_val(#[trigger] coeff@[j]) == fr(
                        coeff_at(self.vals(), j) + coeff_at(o.vals(), j),
                    ),
            decreases n - k,
        {
            let a = if k < self.coeff.len() {
                &self.coeff[k]
            } else {
                &zero
            };
            let b = if k < o.coeff.len() {
                &o.coeff[k]
            } else {
                &zero
            };
            coeff.push(fr_add(a, b));
            k = k + 1;
        }
        Poly { coeff }
    }

    /// The negation of the polynomial.
    pub fn neg(&self) -> (r: Poly)
        ensures
            r.coeff@.len() == self.coeff@.len(),
            forall|k: int| 0 <= k < r.coeff@.len() ==> #[trigger] r.vals()[k] == fr(-self.vals()[k]),
    {
        let mut coeff: Vec<Fr> = Vec::new();
        let mut k: usize = 0;
        while k < self.coeff.len()
            invariant
                k <= self.coeff@.len(),
                coeff@.len() == k,
                forall|j: int| 0 <= j < k ==> fr_val(#[trigger] coeff@[j]) == fr(-self.vals()[j]),
            decreases self.coeff@.len() - k,
        {
            coeff.push(fr_neg(&self.coeff[k]));
            k = k + 1;
        }
        Poly { coeff }
    }

    /// The polynomial times the scalar `s`.
    pub fn mul_scalar(&self, s: &Fr) -> (r: Poly)
        ensures
            r.coeff@.len() == self.coeff@.len(),
            forall|k: int|
                0 <= k < r.coeff@.len() ==> #[trigger] r.vals()[k] == fr(self.vals()[k] * fr_val(*s)),
    {
        let mut coeff: Vec<Fr> = Vec::new();
        let mut k: usize = 0;
        while k < self.coeff.len()
            invariant
                k <= self.coeff@.len(),
                coeff@.len() == k,
                forall|j: int|
                    0 <= j < k ==> fr_val(#[trigger] coeff@[j]) == fr(self.vals()[j] * fr_val(*s)),
            decreases self.coeff@.len() - k,
        {
            coeff.push(fr_mul(&self.coeff[k], s));
            k = k + 1;
        }
        Poly { coeff }
    }

    /// The product of two polynomials: the coefficient of degree `k` is the
    /// sum of `a_i * b_j` over `i + j == k`.
    pub fn mul(&self, o: &Poly) -> (r: Poly)
        requires
            self.wf(),
            o.wf(),
            self.coeff@.len() + o.coeff@.len() <= usize::MAX,
        ensures
            r.wf(),
            r.coeff@.len() == self.coeff@.len() + o.coeff@.len() - 1,
            forall|k: int|
                0 <= k < r.coeff@.len() ==> #[trigger] r.vals()[k] == fr(
                    convolution(self.vals(), o.vals(), k, k + 1),
                ),
    {
        let la = self.coeff.len();
        let lb = o.coeff.len();
        let n: usize = la + lb - 1;
        let mut coeff: Vec<Fr> = Vec::new();
        let mut k: usize = 0;
        while k < n
            invariant
                la == self.coeff@.len(),
                lb == o.coeff@.len(),
                n == la + lb - 1,
                k <= n,
                coeff@.len() == k,
                forall|j: int|
                    0 <= j < k ==> fr_val(#[trigger] coeff@[j]) == fr(
                        convolution(self.vals(), o.vals(), j, j + 1),
                    ),
            decreases n - k,
        {
            let mut acc = fr_zero();
            proof {
                lemma_small_mod(0, fr_modulus() as nat);
            }
            let mut i: usize = 0;
            while i <= k
                invariant
                    la == self.coeff@.len(),
                    lb == o.coeff@.len(),
                    k < n,
                    n == la + lb - 1,
                    i <= k + 1,
                    fr_val(acc) == fr(convolution(self.vals(), o.vals(), k as int, i as int)),
                decreases k + 1 - i,
            {
                let ghost before = convolution(self.vals(), o.vals(), k as int, i as int);
                if i < la && k - i < lb {
                    let t = fr_mul(&self.coeff[i], &o.coeff[k - i]);
                    acc = fr_add(&acc, &t);
                    proof {
                        lemma_add_residues(before, self.vals()[i as int] * o.vals()[k - i]);
                    }
                }
                i = i + 1;
            }
            coeff.push(acc);
            k = k + 1;
        }
        Poly { coeff }
    }

    /// The commitment: each coefficient times the generator of the first group.
    pub fn commitment(&self) -> (r: Commitment)
        requires
            self.wf(),
        ensures
            r.wf(),
            r.logs() == residues(self.vals()),
    {
        let one = g1_one();
        let mut coeff: Vec<G1> = Vec::new();
        let mut i: usize = 0;
        while i < self.coeff.len()
            invariant
                i <= self.coeff@.len(),
                g1_log(one) == 1,
                coeff@.len() == i,
                forall|j: int| 0 <= j < i ==> g1_log(#[trigger] coeff@[j]) == fr(fr_val(self.coeff@[j])),
            decreases self.coeff@.len() - i,
        {
            coeff.push(g1_mul(&one, &self.coeff[i]));
            i = i + 1;
        }
        let r = Commitment { coeff };
        assert(r.logs() =~= residues(self.vals()));
        r
    }
}

impl Clone for Commitment {
    /// A commitment with the same coefficients.
    fn clone(&self) -> (r: Commitment)
        ensures
            r.coeff@ == self.coeff@,
    {
        let mut coeff: Vec<G1> = Vec::new();
        let mut i: usize = 0;
        while i < self.coeff.len()
            invariant
                i <= self.coeff@.len(),
                coeff@ == self.coeff@.subrange(0, i as int),
            decreases self.coeff@.len() - i,
        {
            coeff.push(self.coeff[i]);
            i = i + 1;
            assert(coeff@ =~= self.coeff@.subrange(0, i as int));
        }
        assert(self.coeff@.subrange(0, i as int) =~= self.coeff@);
        Commitment { coeff }
    }
}

impl Commitment {
    /// Whether the commitment has at least one coefficient.
    pub open spec fn wf(&self) -> bool {
        self.coeff@.len() >= 1
    }

    /// The logarithms of the coefficients.
    pub open spec fn logs(&self) -> Seq<int> {
        g1_logs(self.coeff@)
    }

    /// The degree `t` of the committed polynomial.
    pub fn degree(&self) -> (r: usize)
        requires
            self.wf(),
        ensures
            r == self.coeff@.len() - 1,
    {
        self.coeff.len() - 1
    }

    /// The value at `x` in the first group, by Horner's rule.
    pub fn evaluate(&self, x: &Fr) -> (r: G1)
        ensures
            g1_log(r) == fr(poly_value(self.logs(), fr_val(*x))),
    {
        let ghost cs = self.logs();
        let ghost xv = fr_val(*x);
        let mut y = g1_zero();
        let mut i: usize = self.coeff.len();
        assert(cs.subrange(i as int, cs.len() as int) =~= Seq::<int>::empty());
        proof {
            lemma_small_mod(0, fr_modulus() as nat);
        }
        while i > 0
            invariant
                i <= self.coeff@.len(),
                cs == self.logs(),
                xv == fr_val(*x),
                g1_log(y) == fr(poly_value(cs.subrange(i as int, cs.len() as int), xv)),
            decreases i,
        {
            let ghost p = poly_value(cs.subrange(i as int, cs.len() as int), xv);
            let t = g1_mul(&y, x);
            y = g1_add(&t, &self.coeff[i - 1]);
            proof {
                lemma_suffix_step(cs, i as int);
                lemma_horner_step(p, xv, cs[i - 1]);
                lemma_mul_mod_noop_left(p, xv, fr_modulus());
                lemma_mod_twice(p * xv, fr_modulus());
            }
            i = i - 1;
        }
        assert(cs.subrange(0, cs.len() as int) =~= cs);
        y
    }
}

} // verus!
