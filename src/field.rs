use vstd::prelude::*;
use vstd::arithmetic::power::pow;

use lambdaworks_math::field::element::FieldElement as LwElement;
use lambdaworks_math::field::fields::fft_friendly::stark_252_prime_field::Stark252PrimeField;
use lambdaworks_math::unsigned_integer::element::UnsignedInteger;

verus! {

/// One 64-bit digit base.
pub open spec fn limb_base() -> int {
    0x1_0000_0000_0000_0000
}

/// The prime `2^251 + 17 * 2^192 + 1`.
pub open spec fn modulus() -> int {
    (((0x0800_0000_0000_0011 * limb_base()) * limb_base()) * limb_base()) + 1
}

/// An element of the prime field, held as its canonical representative in
/// four 64-bit limbs, most significant first.
#[derive(Clone, Copy, Debug, PartialEq, Eq, Structural)]
pub struct Felt {
    pub l0: u64,
    pub l1: u64,
    pub l2: u64,
    pub l3: u64,
}

/// The integer that four limbs spell, most significant first.
pub open spec fn limbs_value(l0: u64, l1: u64, l2: u64, l3: u64) -> int {
    ((l0 * limb_base() + l1) * limb_base() + l2) * limb_base() + l3
}

impl View for Felt {
    type V = int;

    open spec fn view(&self) -> int {
        limbs_value(self.l0, self.l1, self.l2, self.l3)
    }
}

impl Felt {
    /// The representative is reduced: below the modulus.
    pub open spec fn wf(&self) -> bool {
        self@ < modulus()
    }
}

/// Field addition on representatives.
pub open spec fn add_mod(a: int, b: int) -> int {
    (a + b) % modulus()
}

/// Field subtraction on representatives.
pub open spec fn sub_mod(a: int, b: int) -> int {
    (a - b) % modulus()
}

/// Field multiplication on representatives.
pub open spec fn mul_mod(a: int, b: int) -> int {
    (a * b) % modulus()
}

/// Limbs are determined by the value they spell.
pub proof fn lemma_limbs_unique(a: Felt, b: Felt)
    requires
        a@ == b@,
    ensures
        a == b,
{
    let base = limb_base();
    let xa = (a.l0 * base + a.l1) * base + a.l2;
    let xb = (b.l0 * base + b.l1) * base + b.l2;
    lemma_split(xa, a.l3 as int, xb, b.l3 as int);
    let ya = a.l0 * base + a.l1;
    let yb = b.l0 * base + b.l1;
    lemma_split(ya, a.l2 as int, yb, b.l2 as int);
    lemma_split(a.l0 as int, a.l1 as int, b.l0 as int, b.l1 as int);
}

proof fn lemma_split(x: int, d: int, y: int, e: int)
    requires
        0 <= d < limb_base(),
        0 <= e < limb_base(),
        x * limb_base() + d == y * limb_base() + e,
    ensures
        x == y,
        d == e,
{
    let b = limb_base();
    if x < y {
        assert(x * b + b <= y * b) by (nonlinear_arith) requires x < y, b > 0;
    } else if x > y {
        assert(y * b + b <= x * b) by (nonlinear_arith) requires y < x, b > 0;
    }
}

/// A `u64` is a reduced representative.
pub proof fn lemma_small_is_reduced(v: u64)
    ensures
        (Felt { l0: 0, l1: 0, l2: 0, l3: v }).wf(),
        (Felt { l0: 0, l1: 0, l2: 0, l3: v })@ == v as int,
{
}

impl Felt {
    /// The element whose representative is `v`.
    pub fn from_u64(v: u64) -> (r: Felt)
        ensures
            r.wf(),
            r@ == v as int,
    {
        Felt { l0: 0, l1: 0, l2: 0, l3: v }
    }

    pub fn zero() -> (r: Felt)
        ensures
            r.wf(),
            r@ == 0,
    {
        Felt::from_u64(0)
    }

    pub fn one() -> (r: Felt)
        ensures
            r.wf(),
            r@ == 1,
    {
        Felt::from_u64(1)
    }

    /// Equality of field elements, decided on the representatives.
    pub fn equals(&self, other: &Felt) -> (r: bool)
        ensures
            r == (self@ == other@),
    {
        proof {
            if self@ == other@ {
                lemma_limbs_unique(*self, *other);
            }
        }
        self.l0 == other.l0 && self.l1 == other.l1 && self.l2 == other.l2 && self.l3 == other.l3
    }

    /// Whether the element is zero.
    pub fn is_zero(&self) -> (r: bool)
        ensures
            r == (self@ == 0),
    {
        self.equals(&Felt::zero())
    }
}

/// The multiplicative inverse of a nonzero representative.
pub uninterp spec fn inverse_of(a: int) -> int;

/// Field division on representatives.
pub open spec fn div_mod(a: int, b: int) -> int {
    mul_mod(a, inverse_of(b))
}

/// The field's fixed generator of its subgroup of order `2^192`.
pub open spec fn two_adic_root() -> int {
    limbs_value(0x005282db87529cfa, 0x3f0464519c8b0fa5, 0xad187148e11a6161, 0x6070024f42f8ef94)
}

/// `x` squared `k` times in the field.
pub open spec fn squared_times(x: int, k: nat) -> int
    decreases k,
{
    if k == 0 {
        x
    } else {
        let y = squared_times(x, (k - 1) as nat);
        mul_mod(y, y)
    }
}

/// The generator of the subgroup of order `2^order` that the field's FFT uses:
/// the fixed generator of order `2^192` squared `192 − order` times.
pub open spec fn primitive_root(order: nat) -> int {
    if order == 0 {
        1
    } else {
        squared_times(two_adic_root(), (192 - order) as nat)
    }
}

/// Relies on lambdaworks' `FieldElement::add`: addition modulo the prime.
#[verifier::external_body]
fn lw_add(a: &Felt, b: &Felt) -> (r: Felt)
    requires
        a.wf(),
        b.wf(),
    ensures
        r.wf(),
        r@ == add_mod(a@, b@),
{
    let x = LwElement::<Stark252PrimeField>::new(UnsignedInteger::from_limbs([a.l0, a.l1, a.l2, a.l3]));
    let y = LwElement::<Stark252PrimeField>::new(UnsignedInteger::from_limbs([b.l0, b.l1, b.l2, b.l3]));
    let l = (x + y).representative().limbs;
    Felt { l0: l[0], l1: l[1], l2: l[2], l3: l[3] }
}

/// Relies on lambdaworks' `FieldElement::sub`: subtraction modulo the prime.
#[verifier::external_body]
fn lw_sub(a: &Felt, b: &Felt) -> (r: Felt)
    requires
        a.wf(),
        b.wf(),
    ensures
        r.wf(),
        r@ == sub_mod(a@, b@),
{
    let x = LwElement::<Stark252PrimeField>::new(UnsignedInteger::from_limbs([a.l0, a.l1, a.l2, a.l3]));
    let y = LwElement::<Stark252PrimeField>::new(UnsignedInteger::from_limbs([b.l0, b.l1, b.l2, b.l3]));
    let l = (x - y).representative().limbs;
    Felt { l0: l[0], l1: l[1], l2: l[2], l3: l[3] }
}

/// Relies on lambdaworks' `FieldElement::mul`: multiplication modulo the prime.
#[verifier::external_body]
fn lw_mul(a: &Felt, b: &Felt) -> (r: Felt)
    requires
        a.wf(),
        b.wf(),
    ensures
        r.wf(),
        r@ == mul_mod(a@, b@),
{
    let x = LwElement::<Stark252PrimeField>::new(UnsignedInteger::from_limbs([a.l0, a.l1, a.l2, a.l3]));
    let y = LwElement::<Stark252PrimeField>::new(UnsignedInteger::from_limbs([b.l0, b.l1, b.l2, b.l3]));
    let l = (x * y).representative().limbs;
    Felt { l0: l[0], l1: l[1], l2: l[2], l3: l[3] }
}

/// Relies on lambdaworks' `FieldElement::inv`: the multiplicative inverse of a
/// nonzero element (it fails only on zero, which `requires` leaves out).
#[verifier::external_body]
fn lw_inv(a: &Felt) -> (r: Felt)
    requires
        a.wf(),
        a@ != 0,
    ensures
        r.wf(),
        r@ == inverse_of(a@),
        mul_mod(r@, a@) == 1,
{
    let x = LwElement::<Stark252PrimeField>::new(UnsignedInteger::from_limbs([a.l0, a.l1, a.l2, a.l3]));
    let l = x.inv().unwrap().representative().limbs;
    Felt { l0: l[0], l1: l[1], l2: l[2], l3: l[3] }
}

/// Relies on lambdaworks' `FieldElement::pow`: exponentiation modulo the prime.
#[verifier::external_body]
fn lw_pow(a: &Felt, e: u64) -> (r: Felt)
    requires
        a.wf(),
    ensures
        r.wf(),
        r@ == pow(a@, e as nat) % modulus(),
{
    let x = LwElement::<Stark252PrimeField>::new(UnsignedInteger::from_limbs([a.l0, a.l1, a.l2, a.l3]));
    let l = x.pow(e).representative().limbs;
    Felt { l0: l[0], l1: l[1], l2: l[2], l3: l[3] }
}

/// Relies on lambdaworks' `IsFFTField::get_primitive_root_of_unity` for the
/// 252-bit field: one for order 0, else its two-adic root squared
/// `192 − order` times; it succeeds for every order up to 192.
#[verifier::external_body]
fn lw_primitive_root(order: u64) -> (r: Felt)
    requires
        order <= 192,
    ensures
        r.wf(),
        r@ == primitive_root(order as nat),
{
    let x = <Stark252PrimeField as lambdaworks_math::field::traits::IsFFTField>::get_primitive_root_of_unity(order).unwrap();
    let l = x.representative().limbs;
    Felt { l0: l[0], l1: l[1], l2: l[2], l3: l[3] }
}

impl Felt {
    pub fn add(&self, other: &Felt) -> (r: Felt)
        requires
            self.wf(),
            other.wf(),
        ensures
            r.wf(),
            r@ == add_mod(self@, other@),
    {
        lw_add(self, other)
    }

    pub fn sub(&self, other: &Felt) -> (r: Felt)
        requires
            self.wf(),
            other.wf(),
        ensures
            r.wf(),
            r@ == sub_mod(self@, other@),
    {
        lw_sub(self, other)
    }

    pub fn mul(&self, other: &Felt) -> (r: Felt)
        requires
            self.wf(),
            other.wf(),
        ensures
            r.wf(),
            r@ == mul_mod(self@, other@),
    {
        lw_mul(self, other)
    }

    pub fn square(&self) -> (r: Felt)
        requires
            self.wf(),
        ensures
            r.wf(),
            r@ == mul_mod(self@, self@),
    {
        lw_mul(self, self)
    }

    /// The inverse of a nonzero element.
    pub fn inv(&self) -> (r: Felt)
        requires
            self.wf(),
            self@ != 0,
        ensures
            r.wf(),
            r@ == inverse_of(self@),
            mul_mod(r@, self@) == 1,
    {
        lw_inv(self)
    }

    /// `self / other`: the element that times `other` gives `self`.
    pub fn div(&self, other: &Felt) -> (r: Felt)
        requires
            self.wf(),
            other.wf(),
            other@ != 0,
        ensures
            r.wf(),
            r@ == div_mod(self@, other@),
            mul_mod(r@, other@) == self@,
    {
        let i = lw_inv(other);
        let r = lw_mul(self, &i);
        proof {
            lemma_mul_inverse(self@, i@, other@);
        }
        r
    }

    pub fn pow(&self, e: u64) -> (r: Felt)
        requires
            self.wf(),
        ensures
            r.wf(),
            r@ == pow(self@, e as nat) % modulus(),
    {
        lw_pow(self, e)
    }

    /// The primitive root of unity of order `2^order`.
    pub fn primitive_root_of_unity(order: u64) -> (r: Felt)
        requires
            order <= 192,
        ensures
            r.wf(),
            r@ == primitive_root(order as nat),
    {
        lw_primitive_root(order)
    }
}

/// `((a * i) % m * b) % m == a % m` where `i * b == 1 (mod m)`.
proof fn lemma_mul_inverse(a: int, i: int, b: int)
    requires
        0 <= a < modulus(),
        mul_mod(i, b) == 1,
    ensures
        mul_mod(mul_mod(a, i), b) == a,
{
    let m = modulus();
    vstd::arithmetic::div_mod::lemma_mul_mod_noop_left(a * i, b, m);
    assert((a * i) * b == a * (i * b)) by (nonlinear_arith);
    vstd::arithmetic::div_mod::lemma_mul_mod_noop_right(a, i * b, m);
    vstd::arithmetic::div_mod::lemma_small_mod(a as nat, m as nat);
}

/// The eight bytes of `x`, most significant first.
pub open spec fn u64_be_bytes(x: u64) -> Seq<u8> {
    Seq::new(8, |k: int| (x >> ((56 - 8 * k) as u64)) as u8)
}

/// The 32-byte big-endian encoding of an element's representative.
pub open spec fn felt_bytes(a: Felt) -> Seq<u8> {
    u64_be_bytes(a.l0) + u64_be_bytes(a.l1) + u64_be_bytes(a.l2) + u64_be_bytes(a.l3)
}

/// Appends the eight bytes of `x`, most significant first.
fn push_u64_be(out: &mut Vec<u8>, x: u64)
    ensures
        final(out)@ == old(out)@ + u64_be_bytes(x),
{
    let ghost start = out@;
    let mut k: u64 = 0;
    while k < 8
        invariant
            k <= 8,
            out@ == start + u64_be_bytes(x).take(k as int),
        decreases 8 - k,
    {
        out.push((x >> (56 - 8 * k)) as u8);
        k = k + 1;
        proof {
            assert(out@ =~= start + u64_be_bytes(x).take(k as int));
        }
    }
    proof {
        assert(u64_be_bytes(x).take(8) =~= u64_be_bytes(x));
    }
}

impl Felt {
    /// The big-endian encoding of the representative, 32 bytes.
    pub fn to_bytes_be(&self) -> (r: Vec<u8>)
        ensures
            r@ == felt_bytes(*self),
    {
        let mut out: Vec<u8> = Vec::new();
        push_u64_be(&mut out, self.l0);
        push_u64_be(&mut out, self.l1);
        push_u64_be(&mut out, self.l2);
        push_u64_be(&mut out, self.l3);
        proof {
            assert(out@ =~= felt_bytes(*self));
        }
        out
    }

    /// Appends the big-endian encoding of the representative to `out`.
    pub fn append_bytes_be(&self, out: &mut Vec<u8>)
        ensures
            final(out)@ == old(out)@ + felt_bytes(*self),
    {
        let ghost start = out@;
        push_u64_be(out, self.l0);
        push_u64_be(out, self.l1);
        push_u64_be(out, self.l2);
        push_u64_be(out, self.l3);
        proof {
            assert(out@ =~= start + felt_bytes(*self));
        }
    }
}

proof fn lemma_reduced_iff(a: Felt)
    ensures
        (a@ < modulus()) == (a.l0 < 0x0800_0000_0000_0011
            || (a.l0 == 0x0800_0000_0000_0011 && a.l1 == 0 && a.l2 == 0 && a.l3 == 0)),
{
    let b = limb_base();
    let b3 = b * b * b;
    let rest = (a.l1 * b + a.l2) * b + a.l3;
    let top_limb: int = 0x0800_0000_0000_0011;
    assert(a@ == a.l0 * b3 + rest) by (nonlinear_arith)
        requires a@ == ((a.l0 * b + a.l1) * b + a.l2) * b + a.l3, b3 == b * b * b, rest == (a.l1 * b + a.l2) * b + a.l3;
    assert(modulus() == top_limb * b3 + 1) by (nonlinear_arith)
        requires modulus() == (((top_limb * b) * b) * b) + 1, b3 == b * b * b;
    assert(0 <= rest < b3) by (nonlinear_arith)
        requires rest == (a.l1 * b + a.l2) * b + a.l3, b3 == b * b * b, b == 0x1_0000_0000_0000_0000,
            0 <= a.l1 < b, 0 <= a.l2 < b, 0 <= a.l3 < b;
    if a.l0 < top_limb {
        assert(a.l0 * b3 + rest < top_limb * b3) by (nonlinear_arith)
            requires a.l0 < top_limb, rest < b3, b3 > 0, a.l0 >= 0;
    } else if a.l0 > top_limb {
        assert(a.l0 * b3 >= (top_limb + 1) * b3) by (nonlinear_arith)
            requires a.l0 >= top_limb + 1, b3 > 0;
    } else {
        if rest == 0 {
            let x = a.l1 * b + a.l2;
            assert(x >= 0) by (nonlinear_arith) requires x == a.l1 * b + a.l2, b > 0, a.l1 >= 0, a.l2 >= 0;
            assert(x * b >= 0) by (nonlinear_arith) requires x >= 0, b > 0;
            assert(x * b == 0 && a.l3 == 0);
            assert(x == 0) by (nonlinear_arith) requires x * b == 0, b > 0, x >= 0;
            assert(a.l1 * b >= 0) by (nonlinear_arith) requires b > 0, a.l1 >= 0;
            assert(a.l1 * b == 0 && a.l2 == 0);
            assert(a.l1 == 0) by (nonlinear_arith) requires a.l1 * b == 0, b > 0;
        } else {
            assert((a.l1 * b + a.l2) * b + a.l3 == rest);
        }
    }
}

impl Felt {
    /// Whether the limbs hold a reduced representative.
    pub fn is_reduced(&self) -> (r: bool)
        ensures
            r == self.wf(),
    {
        proof {
            lemma_reduced_iff(*self);
        }
        self.l0 < 0x0800_0000_0000_0011
            || (self.l0 == 0x0800_0000_0000_0011 && self.l1 == 0 && self.l2 == 0 && self.l3 == 0)
    }
}

} // verus!
