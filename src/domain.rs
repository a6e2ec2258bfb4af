use vstd::prelude::*;

use crate::air::{all_wf, col_values};
use crate::context::{AirContext, is_pow2};
use crate::field::{Felt, modulus, mul_mod, primitive_root};
use crate::poly::power_mod;

verus! {

/// `2^k`.
pub open spec fn two_pow(k: nat) -> nat
    decreases k,
{
    if k == 0 {
        1
    } else {
        2 * two_pow((k - 1) as nat)
    }
}

/// The base-two logarithm of a power of two.
pub fn log2(n: usize) -> (r: u32)
    requires
        is_pow2(n as nat),
    ensures
        two_pow(r as nat) == n,
        r < 64,
    decreases n,
{
    if n <= 1 {
        0
    } else {
        let k = log2(n / 2);
        proof {
            assert(n % 2 == 0);
            lemma_two_pow_64();
            if k + 1 >= 64 {
                if k + 1 > 64 {
                    lemma_two_pow_grows(64, (k + 1) as nat);
                }
                assert(two_pow(64) == 0x1_0000_0000_0000_0000);
            }
        }
        k + 1
    }
}

/// `offset · g^i` for `i` below `count`.
pub fn coset_powers(g: &Felt, offset: &Felt, count: usize) -> (r: Vec<Felt>)
    requires
        g.wf(),
        offset.wf(),
    ensures
        r.len() == count,
        all_wf(r@),
        forall|i: int| 0 <= i < count ==> (#[trigger] r@[i])@ == mul_mod(offset@, power_mod(g@, i as nat)),
{
    let mut r: Vec<Felt> = Vec::new();
    let mut p = Felt::one();
    let mut i: usize = 0;
    while i < count
        invariant
            i <= count,
            g.wf(),
            offset.wf(),
            p.wf(),
            p@ == power_mod(g@, i as nat),
            r.len() == i,
            all_wf(r@),
            forall|k: int| 0 <= k < i ==> (#[trigger] r@[k])@ == mul_mod(offset@, power_mod(g@, k as nat)),
        decreases count - i,
    {
        r.push(offset.mul(&p));
        p = p.mul(g);
        i = i + 1;
    }
    r
}

/// The evaluation domains of a proof: the trace's roots of unity and the
/// low-degree extension's coset.
#[derive(Clone, Debug)]
pub struct Domain {
    pub root_order: u32,
    pub lde_roots_of_unity_coset: Vec<Felt>,
    pub lde_root_order: u32,
    pub trace_primitive_root: Felt,
    pub trace_roots_of_unity: Vec<Felt>,
    pub coset_offset: Felt,
    pub blowup_factor: usize,
    pub interpolation_domain_size: usize,
}

impl Domain {
    /// The domain is the one that its orders and offset determine.
    pub open spec fn wf(&self) -> bool {
        &&& self.interpolation_domain_size == two_pow(self.root_order as nat)
        &&& self.lde_roots_of_unity_coset.len() == two_pow(self.lde_root_order as nat)
        &&& self.trace_roots_of_unity.len() == self.interpolation_domain_size
        &&& self.root_order <= self.lde_root_order < 64
        &&& self.trace_primitive_root.wf()
        &&& self.trace_primitive_root@ == primitive_root(self.root_order as nat)
        &&& self.coset_offset.wf()
        &&& all_wf(self.trace_roots_of_unity@)
        &&& all_wf(self.lde_roots_of_unity_coset@)
        &&& forall|i: int| 0 <= i < self.trace_roots_of_unity.len() ==>
                (#[trigger] self.trace_roots_of_unity@[i])@
                == mul_mod(1, power_mod(self.trace_primitive_root@, i as nat))
        &&& forall|i: int| 0 <= i < self.lde_roots_of_unity_coset.len() ==>
                (#[trigger] self.lde_roots_of_unity_coset@[i])@
                == mul_mod(self.coset_offset@, power_mod(primitive_root(self.lde_root_order as nat), i as nat))
    }

    /// The domains of a context: `trace_length` roots of unity, and the coset of
    /// `trace_length · blowup_factor` roots shifted by the coset offset.
    pub fn new(context: &AirContext) -> (r: Domain)
        requires
            context.wf(),
            is_pow2(context.options.blowup_factor as nat),
            context.trace_length * context.options.blowup_factor <= usize::MAX / 2,
        ensures
            r.wf(),
            r.interpolation_domain_size == context.trace_length,
            r.lde_roots_of_unity_coset.len() == context.trace_length * context.options.blowup_factor,
            r.blowup_factor == context.options.blowup_factor,
            r.coset_offset@ == context.options.coset_offset,
    {
        let blowup_factor = context.options.blowup_factor as usize;
        let coset_offset = Felt::from_u64(context.options.coset_offset);
        let interpolation_domain_size = context.trace_length;
        let lde_size = context.trace_length * blowup_factor;
        proof {
            lemma_pow2_mul(context.trace_length as nat, blowup_factor as nat);
        }
        let root_order = log2(interpolation_domain_size);
        let lde_root_order = log2(lde_size);
        proof {
            lemma_two_pow_mono(root_order as nat, lde_root_order as nat);
        }
        let trace_primitive_root = Felt::primitive_root_of_unity(root_order as u64);
        let one = Felt::one();
        let trace_roots_of_unity = coset_powers(&trace_primitive_root, &one, interpolation_domain_size);
        let lde_primitive_root = Felt::primitive_root_of_unity(lde_root_order as u64);
        let lde_roots_of_unity_coset = coset_powers(&lde_primitive_root, &coset_offset, lde_size);
        Domain {
            root_order,
            lde_roots_of_unity_coset,
            lde_root_order,
            trace_primitive_root,
            trace_roots_of_unity,
            coset_offset,
            blowup_factor,
            interpolation_domain_size,
        }
    }
}

proof fn lemma_pow2_mul(a: nat, b: nat)
    requires
        is_pow2(a),
        is_pow2(b),
    ensures
        is_pow2(a * b),
        a <= a * b,
    decreases b,
{
    lemma_pow2_pos(a);
    if b > 1 {
        assert(b % 2 == 0);
        lemma_pow2_mul(a, b / 2);
        let c = a * (b / 2);
        assert(a * b == 2 * c) by (nonlinear_arith) requires b % 2 == 0, c == a * (b / 2);
        assert((2 * c) / 2 == c);
        assert((2 * c) % 2 == 0);
        assert(c >= 1) by (nonlinear_arith) requires a >= 1, b / 2 >= 1, c == a * (b / 2);
    } else {
        assert(b == 1);
        assert(a * b == a) by (nonlinear_arith) requires b == 1;
    }
}

pub(crate) proof fn lemma_two_pow_add(a: nat, b: nat)
    ensures
        two_pow(a + b) == two_pow(a) * two_pow(b),
    decreases b,
{
    if b > 0 {
        let b1 = (b - 1) as nat;
        lemma_two_pow_add(a, b1);
        assert(two_pow(a + b) == 2 * two_pow(a + b1));
        assert(two_pow(b) == 2 * two_pow(b1));
        let x = two_pow(a);
        let y = two_pow(b1);
        assert(2 * (x * y) == x * (2 * y)) by (nonlinear_arith);
    } else {
        let x = two_pow(a);
        assert(x * 1 == x) by (nonlinear_arith);
        assert(a + b == a);
    }
}

pub(crate) proof fn lemma_two_pow_64()
    ensures
        two_pow(64) == 0x1_0000_0000_0000_0000,
{
    reveal_with_fuel(two_pow, 17);
    assert(two_pow(16) == 0x1_0000);
    lemma_two_pow_add(16, 16);
    assert(two_pow(32) == 0x1_0000 * 0x1_0000);
    lemma_two_pow_add(32, 32);
    assert(two_pow(64) == 0x1_0000_0000 * 0x1_0000_0000);
}

proof fn lemma_pow2_pos(a: nat)
    requires
        is_pow2(a),
    ensures
        a >= 1,
{
}

pub(crate) proof fn lemma_two_pow_mono(i: nat, j: nat)
    requires
        two_pow(i) <= two_pow(j),
    ensures
        i <= j,
    decreases i,
{
    if i > j {
        lemma_two_pow_grows(j, i);
    }
}

pub(crate) proof fn lemma_two_pow_grows(j: nat, i: nat)
    requires
        j < i,
    ensures
        two_pow(j) < two_pow(i),
    decreases i,
{
    if j < i - 1 {
        lemma_two_pow_grows(j, (i - 1) as nat);
    }
    lemma_two_pow_pos((i - 1) as nat);
}

pub(crate) proof fn lemma_two_pow_pos(k: nat)
    ensures
        two_pow(k) >= 1,
    decreases k,
{
    if k > 0 {
        lemma_two_pow_pos((k - 1) as nat);
    }
}

/// Every FRI layer's domain is half the one before: with layer `k` of size
/// `2^(order − k)`, the size of layer `k + 1` is that of layer `k` halved.
pub proof fn lemma_fri_layer_halves(lde_root_order: nat, k: nat)
    requires
        k < lde_root_order,
    ensures
        two_pow((lde_root_order - (k + 1)) as nat) == two_pow((lde_root_order - k) as nat) / 2,
{
    let e = (lde_root_order - (k + 1)) as nat;
    assert((lde_root_order - k) as nat == e + 1);
    assert(two_pow(e + 1) == 2 * two_pow(e));
}

/// The base-two logarithm of a power of two.
pub open spec fn log2_spec(n: nat) -> nat
    decreases n,
{
    if n <= 1 {
        0
    } else {
        1 + log2_spec(n / 2)
    }
}

pub(crate) proof fn lemma_is_pow2_two_pow(k: nat)
    ensures
        is_pow2(two_pow(k)),
    decreases k,
{
    if k > 0 {
        lemma_is_pow2_two_pow((k - 1) as nat);
        lemma_two_pow_pos((k - 1) as nat);
        let t = two_pow((k - 1) as nat);
        assert((2 * t) / 2 == t);
        assert((2 * t) % 2 == 0);
    }
}

pub(crate) proof fn lemma_pow2_log(n: nat)
    requires
        is_pow2(n),
    ensures
        two_pow(log2_spec(n)) == n,
    decreases n,
{
    if n > 1 {
        lemma_pow2_log(n / 2);
        assert(n % 2 == 0);
    }
}

pub(crate) proof fn lemma_two_pow_div(a: nat, b: nat)
    ensures
        two_pow(a + b) / two_pow(b) == two_pow(a),
{
    lemma_two_pow_add(a, b);
    lemma_two_pow_pos(b);
    vstd::arithmetic::div_mod::lemma_div_by_multiple(two_pow(a) as int, two_pow(b) as int);
}

/// For a power of two `n ≥ 2^top` and `j < top`: `n / 2^j` is a power of two,
/// at least 2, and so is its half.
pub(crate) proof fn lemma_halving_size(n: nat, j: nat, top: nat)
    requires
        j < top,
        two_pow(top) <= n,
        is_pow2(n),
    ensures
        n / two_pow(j) >= 2,
        is_pow2(n / two_pow(j)),
        is_pow2((n / two_pow(j)) / 2),
        (n / two_pow(j)) / 2 == n / two_pow(j + 1),
{
    let m = log2_spec(n);
    lemma_pow2_log(n);
    lemma_two_pow_mono(top, m);
    let e = (m - j) as nat;
    assert(e + j == m);
    lemma_two_pow_div(e, j);
    lemma_is_pow2_two_pow(e);
    assert(e >= 1);
    let e1 = (e - 1) as nat;
    assert(two_pow(e) == 2 * two_pow(e1));
    lemma_two_pow_pos(e1);
    lemma_is_pow2_two_pow(e1);
    assert((2 * two_pow(e1)) / 2 == two_pow(e1));
    assert(e1 + (j + 1) == m);
    lemma_two_pow_div(e1, j + 1);
}

} // verus!
