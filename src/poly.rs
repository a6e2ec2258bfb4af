use vstd::prelude::*;

use lambdaworks_math::field::element::FieldElement as LwElement;
use lambdaworks_math::field::fields::fft_friendly::stark_252_prime_field::Stark252PrimeField;
use lambdaworks_math::polynomial::Polynomial;
use lambdaworks_math::unsigned_integer::element::UnsignedInteger;

use crate::air::{all_wf, col_values};
use crate::context::is_pow2;
use crate::domain::two_pow;
use crate::field::{Felt, modulus, add_mod, sub_mod, mul_mod, div_mod, primitive_root};

verus! {

/// `g^i` in the field, by repeated multiplication.
pub open spec fn power_mod(g: int, i: nat) -> int
    decreases i,
{
    if i == 0 {
        1
    } else {
        mul_mod(power_mod(g, (i - 1) as nat), g)
    }
}

/// `∏ₖ (z − xₖ)`: the polynomial vanishing on `xs`, evaluated at `z`.
pub open spec fn prod_sub(xs: Seq<int>, z: int) -> int
    decreases xs.len(),
{
    if xs.len() == 0 {
        1
    } else {
        mul_mod(prod_sub(xs.drop_last(), z), sub_mod(z, xs.last()))
    }
}

/// The factor of the `k`-th Lagrange basis polynomial for node `m`.
pub open spec fn lagrange_factor(xs: Seq<int>, k: int, m: int, z: int) -> int {
    if m == k {
        1
    } else {
        div_mod(sub_mod(z, xs[m]), sub_mod(xs[k], xs[m]))
    }
}

/// The product of the first `i` factors of the `k`-th Lagrange basis polynomial at `z`.
pub open spec fn lagrange_basis(xs: Seq<int>, k: int, z: int, i: nat) -> int
    decreases i,
{
    if i == 0 {
        1
    } else {
        mul_mod(lagrange_basis(xs, k, z, (i - 1) as nat), lagrange_factor(xs, k, i - 1, z))
    }
}

/// The sum of the first `i` terms of the interpolating polynomial at `z`.
pub open spec fn lagrange_sum(xs: Seq<int>, ys: Seq<int>, z: int, i: nat) -> int
    decreases i,
{
    if i == 0 {
        0
    } else {
        add_mod(
            lagrange_sum(xs, ys, z, (i - 1) as nat),
            mul_mod(ys[i - 1], lagrange_basis(xs, i - 1, z, xs.len())),
        )
    }
}

/// The polynomial through the points `(xₖ, yₖ)` of least degree, at `z`.
pub open spec fn interpolate_at(xs: Seq<int>, ys: Seq<int>, z: int) -> int {
    lagrange_sum(xs, ys, z, xs.len())
}

/// The nodes are pairwise distinct.
pub open spec fn distinct(xs: Seq<int>) -> bool {
    forall|a: int, b: int| 0 <= a < xs.len() && 0 <= b < xs.len() && a != b ==> xs[a] != xs[b]
}

proof fn lemma_sub_zero(a: int, b: int)
    requires
        0 <= a < modulus(),
        0 <= b < modulus(),
    ensures
        (sub_mod(a, b) == 0) == (a == b),
{
    let p = modulus();
    assert(p > 0);
    if a == b {
        vstd::arithmetic::div_mod::lemma_small_mod(0, p as nat);
    } else if a > b {
        vstd::arithmetic::div_mod::lemma_small_mod((a - b) as nat, p as nat);
    } else if a < b {
        vstd::arithmetic::div_mod::lemma_mod_add_multiples_vanish(a - b, p);
        vstd::arithmetic::div_mod::lemma_small_mod((a - b + p) as nat, p as nat);
    }
}

/// The vanishing polynomial of `xs` at `z`.
pub fn zerofier_eval(xs: &[Felt], z: &Felt) -> (r: Felt)
    requires
        all_wf(xs@),
        z.wf(),
    ensures
        r.wf(),
        r@ == prod_sub(col_values(xs@), z@),
{
    let mut acc = Felt::one();
    let mut i: usize = 0;
    while i < xs.len()
        invariant
            i <= xs.len(),
            all_wf(xs@),
            z.wf(),
            acc.wf(),
            acc@ == prod_sub(col_values(xs@.take(i as int)), z@),
        decreases xs.len() - i,
    {
        proof {
            assert(col_values(xs@.take(i as int + 1)).drop_last() =~= col_values(xs@.take(i as int)));
        }
        acc = acc.mul(&z.sub(&xs[i]));
        i = i + 1;
    }
    proof {
        assert(xs@.take(xs.len() as int) =~= xs@);
    }
    acc
}

/// The interpolating polynomial of the points `(xₖ, yₖ)` at `z`; `None` when
/// two nodes coincide.
pub fn interpolate_eval(xs: &[Felt], ys: &[Felt], z: &Felt) -> (r: Option<Felt>)
    requires
        xs.len() == ys.len(),
        all_wf(xs@),
        all_wf(ys@),
        z.wf(),
    ensures
        r is Some <==> distinct(col_values(xs@)),
        r matches Some(v) ==> v.wf() && v@ == interpolate_at(col_values(xs@), col_values(ys@), z@),
{
    let ghost xv = col_values(xs@);
    let ghost yv = col_values(ys@);
    let n = xs.len();
    let mut sum = Felt::zero();
    let mut k: usize = 0;
    while k < n
        invariant
            k <= n,
            n == xs.len(),
            n == ys.len(),
            all_wf(xs@),
            all_wf(ys@),
            z.wf(),
            xv == col_values(xs@),
            yv == col_values(ys@),
            sum.wf(),
            sum@ == lagrange_sum(xv, yv, z@, k as nat),
            forall|a: int, b: int| 0 <= a < k && 0 <= b < n && a != b ==> xv[a] != xv[b],
        decreases n - k,
    {
        let mut basis = Felt::one();
        let mut m: usize = 0;
        while m < n
            invariant
                k < n,
                m <= n,
                n == xs.len(),
                all_wf(xs@),
                z.wf(),
                xv == col_values(xs@),
                basis.wf(),
                basis@ == lagrange_basis(xv, k as int, z@, m as nat),
                forall|b: int| 0 <= b < m && b != k ==> xv[k as int] != xv[b],
            decreases n - m,
        {
            if m != k {
                let den = xs[k].sub(&xs[m]);
                proof {
                    assert(xs@[k as int].wf());
                    assert(xs@[m as int].wf());
                    lemma_sub_zero(xs@[k as int]@, xs@[m as int]@);
                }
                if den.is_zero() {
                    proof {
                        assert(xv[k as int] == xv[m as int]);
                        assert(!distinct(xv));
                    }
                    return None;
                }
                let f = z.sub(&xs[m]).div(&den);
                basis = basis.mul(&f);
            } else {
                proof {
                    vstd::arithmetic::div_mod::lemma_small_mod(basis@ as nat, modulus() as nat);
                }
            }
            m = m + 1;
        }
        sum = sum.add(&ys[k].mul(&basis));
        k = k + 1;
    }
    Some(sum)
}

/// A polynomial's value at `x`, coefficients lowest degree first: `Σₖ cₖ·xᵏ`.
pub open spec fn poly_eval(coeffs: Seq<int>, x: int) -> int
    decreases coeffs.len(),
{
    if coeffs.len() == 0 {
        0
    } else {
        add_mod(coeffs[0], mul_mod(x, poly_eval(coeffs.drop_first(), x)))
    }
}

/// Evaluates a polynomial at `x` by Horner's rule.
pub fn evaluate(coeffs: &Vec<Felt>, x: &Felt) -> (r: Felt)
    requires
        all_wf(coeffs@),
        x.wf(),
    ensures
        r.wf(),
        r@ == poly_eval(col_values(coeffs@), x@),
{
    let n = coeffs.len();
    let mut acc = Felt::zero();
    let mut i: usize = n;
    proof {
        assert(col_values(coeffs@).skip(n as int) =~= Seq::<int>::empty());
    }
    while i > 0
        invariant
            i <= n,
            n == coeffs.len(),
            all_wf(coeffs@),
            x.wf(),
            acc.wf(),
            acc@ == poly_eval(col_values(coeffs@).skip(i as int), x@),
        decreases i,
    {
        proof {
            assert(col_values(coeffs@).skip(i as int - 1).drop_first() =~= col_values(coeffs@).skip(i as int));
            assert(coeffs@[i as int - 1].wf());
        }
        acc = coeffs[i - 1].add(&x.mul(&acc));
        i = i - 1;
    }
    proof {
        assert(col_values(coeffs@).skip(0) =~= col_values(coeffs@));
    }
    acc
}

/// Relies on lambdaworks' `Polynomial::interpolate_offset_fft`: the polynomial,
/// of at most `n` coefficients, through the points `(offset·ωⁱ, evals[i])` for
/// `i < n`, where `n = 2^order` is the number of values and `ω` the field's
/// primitive root of that order.
#[verifier::external_body]
pub(crate) fn interpolate_offset_fft(evals: &Vec<Felt>, offset: &Felt, order: u32) -> (r: Vec<Felt>)
    requires
        evals.len() == two_pow(order as nat),
        order < 64,
        all_wf(evals@),
        offset.wf(),
        offset@ != 0,
    ensures
        r.len() <= evals.len(),
        all_wf(r@),
        forall|i: int| 0 <= i < evals.len() ==> poly_eval(
            col_values(r@),
            mul_mod(offset@, power_mod(primitive_root(order as nat), i as nat)),
        ) == (#[trigger] evals@[i])@,
{
    let e: Vec<LwElement<Stark252PrimeField>> =
        evals.iter().map(|a| LwElement::new(UnsignedInteger::from_limbs([a.l0, a.l1, a.l2, a.l3]))).collect();
    let o = LwElement::<Stark252PrimeField>::new(UnsignedInteger::from_limbs([offset.l0, offset.l1, offset.l2, offset.l3]));
    let p = Polynomial::interpolate_offset_fft::<Stark252PrimeField>(&e, &o).unwrap();
    p.coefficients().iter().map(|c| c.representative().limbs).map(|l| Felt { l0: l[0], l1: l[1], l2: l[2], l3: l[3] }).collect()
}

} // verus!
