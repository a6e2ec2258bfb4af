use vstd::prelude::*;

use crate::air::{all_wf, col_values};
use crate::context::is_pow2;
use crate::domain::{coset_powers, log2, two_pow};
use crate::fibonacci_rap::next_pow2;
use crate::poly::{evaluate, poly_eval, power_mod};
use crate::transcript::{StarkTranscript, challenge_of, draw_felt, draw_value, nth_draw, after_draws, transcript_to_field, transcript_to_usize};
use crate::stark_verifier::fold_state;
use crate::field::{Felt, add_mod, sub_mod, mul_mod, div_mod, inverse_of, primitive_root};
use crate::merkle::{BatchStarkProverBackend, MerkleTree, lemma_merkle_path_authenticates_leaf, leaf_hash, path_view, root_from_path};

verus! {

/// What a query reveals of the FRI layers: for each layer the evaluation at the
/// symmetric index and its authentication path.
#[derive(Clone, Debug)]
pub struct FriDecommitment {
    pub layers_evaluations_sym: Vec<Felt>,
    pub layers_auth_paths_sym: Vec<Vec<[u8; 32]>>,
}

/// The co-linearity step: the next layer's value from a value `v`, its
/// symmetric value `v_sym`, the fold challenge `zeta` and the point `x`,
/// `(v + v_sym)/2 + zeta·(v − v_sym)/(2x)`.
pub open spec fn fri_next(v: int, v_sym: int, zeta: int, x: int) -> int {
    let two_inv = inverse_of(2);
    add_mod(
        mul_mod(add_mod(v, v_sym), two_inv),
        mul_mod(mul_mod(mul_mod(zeta, sub_mod(v, v_sym)), two_inv), inverse_of(x)),
    )
}

/// `x` squared `k` times.
pub open spec fn square_iter(x: int, k: nat) -> int
    decreases k,
{
    if k == 0 {
        x
    } else {
        let y = square_iter(x, (k - 1) as nat);
        mul_mod(y, y)
    }
}

/// The value after folding through the first `k` layers from `v0` at `x0`.
pub open spec fn fold_chain(v0: int, evals_sym: Seq<int>, zetas: Seq<int>, x0: int, k: nat) -> int
    decreases k,
{
    if k == 0 {
        v0
    } else {
        let j = (k - 1) as nat;
        fri_next(fold_chain(v0, evals_sym, zetas, x0, j), evals_sym[j as int], zetas[j as int], square_iter(x0, j))
    }
}

/// The index in layer `k`'s domain of the point symmetric to query `iota`.
pub open spec fn sym_index(iota: nat, lde_root_order: nat, k: nat) -> nat {
    let len = two_pow((lde_root_order - k) as nat);
    ((iota as int + len as int / 2) % (len as int)) as nat
}

/// A query passes FRI: the shapes agree; at each layer the symmetric
/// evaluation is authenticated under the layer's root and the point is nonzero;
/// and folding from `v0` ends at `last_value`.
pub open spec fn fri_query_ok(
    roots: Seq<[u8; 32]>,
    zetas: Seq<int>,
    last_value: int,
    iota: nat,
    v0: int,
    x0: int,
    evals_sym: Seq<Felt>,
    paths_sym: Seq<Vec<[u8; 32]>>,
    lde_root_order: nat,
) -> bool {
    &&& zetas.len() == roots.len()
    &&& evals_sym.len() == roots.len()
    &&& paths_sym.len() == roots.len()
    &&& roots.len() <= lde_root_order
    &&& forall|k: int| 0 <= k < roots.len() ==>
            (#[trigger] roots[k])@ == root_from_path(
                leaf_hash(seq![evals_sym[k]]),
                sym_index(iota, lde_root_order, k as nat),
                path_view(paths_sym[k]@),
            )
    &&& forall|k: int| 0 <= k < roots.len() ==> #[trigger] square_iter(x0, k as nat) != 0
    &&& fold_chain(v0, col_values(evals_sym), zetas, x0, roots.len()) == last_value
}

/// Checks one FRI query: `v0` is the first layer's value at the queried point
/// `x0` (the `iota`-th point of the extension coset), `zetas` the fold
/// challenges, and each layer is opened at the symmetric index.
pub fn verify_query_and_sym_openings(
    fri_layers_merkle_roots: &Vec<[u8; 32]>,
    zetas: &Vec<Felt>,
    last_value: &Felt,
    iota: usize,
    v0: &Felt,
    x0: &Felt,
    fri_decommitment: &FriDecommitment,
    lde_root_order: u32,
    lde_domain_size: usize,
) -> (r: bool)
    requires
        lde_domain_size as nat == two_pow(lde_root_order as nat),
        all_wf(zetas@),
        last_value.wf(),
        v0.wf(),
        x0.wf(),
        all_wf(fri_decommitment.layers_evaluations_sym@),
        lde_root_order < 64,
    ensures
        r == fri_query_ok(
            fri_layers_merkle_roots@,
            col_values(zetas@),
            last_value@,
            iota as nat,
            v0@,
            x0@,
            fri_decommitment.layers_evaluations_sym@,
            fri_decommitment.layers_auth_paths_sym@,
            lde_root_order as nat,
        ),
{
    let n = fri_layers_merkle_roots.len();
    let evals_sym = &fri_decommitment.layers_evaluations_sym;
    let paths_sym = &fri_decommitment.layers_auth_paths_sym;
    if zetas.len() != n || evals_sym.len() != n || paths_sym.len() != n || n > lde_root_order as usize {
        return false;
    }
    let ghost es = col_values(evals_sym@);
    let ghost zs = col_values(zetas@);
    let backend = BatchStarkProverBackend::new();
    let two = Felt::from_u64(2);
    let two_inv = two.inv();
    let mut v = *v0;
    let mut x = *x0;
    let mut domain_length: usize = lde_domain_size;
    let mut k: usize = 0;
    while k < n
        invariant
            domain_length as nat == two_pow((lde_root_order - k) as nat),
            n == fri_layers_merkle_roots.len(),
            zetas.len() == n,
            evals_sym.len() == n,
            paths_sym.len() == n,
            n <= lde_root_order,
            lde_root_order < 64,
            k <= n,
            all_wf(zetas@),
            all_wf(evals_sym@),
            *evals_sym == fri_decommitment.layers_evaluations_sym,
            *paths_sym == fri_decommitment.layers_auth_paths_sym,
            es == col_values(evals_sym@),
            zs == col_values(zetas@),
            two_inv.wf(),
            two_inv@ == inverse_of(2),
            v.wf(),
            x.wf(),
            v@ == fold_chain(v0@, es, zs, x0@, k as nat),
            x@ == square_iter(x0@, k as nat),
            forall|j: int| 0 <= j < k ==>
                (#[trigger] fri_layers_merkle_roots@[j])@ == root_from_path(
                    leaf_hash(seq![evals_sym@[j]]),
                    sym_index(iota as nat, lde_root_order as nat, j as nat),
                    path_view(paths_sym@[j]@),
                ),
            forall|j: int| 0 <= j < k ==> #[trigger] square_iter(x0@, j as nat) != 0,
        decreases n - k,
    {
        let half = domain_length / 2;
        proof {
            crate::fri::lemma_layer_len(lde_root_order as nat, k as nat);
        }
        let m = iota % domain_length;
        let index_sym = if m >= half { m - half } else { m + half };
        proof {
            let len = domain_length as int;
            vstd::arithmetic::div_mod::lemma_add_mod_noop(iota as int, half as int, len);
            vstd::arithmetic::div_mod::lemma_small_mod(half as nat, len as nat);
            if m >= half {
                vstd::arithmetic::div_mod::lemma_mod_add_multiples_vanish(m - half, len);
                vstd::arithmetic::div_mod::lemma_small_mod((m - half) as nat, len as nat);
                assert(m + half == len + (m - half));
            } else {
                vstd::arithmetic::div_mod::lemma_small_mod((m + half) as nat, len as nat);
            }
            assert(index_sym as nat == sym_index(iota as nat, lde_root_order as nat, k as nat));
        }
        let leaf = vec![evals_sym[k]];
        proof {
            assert(leaf@ =~= seq![evals_sym@[k as int]]);
        }
        if !backend.verify_path(&fri_layers_merkle_roots[k], index_sym, &leaf, &paths_sym[k]) {
            proof {
                assert(!(fri_layers_merkle_roots@[k as int]@ == root_from_path(
                    leaf_hash(seq![evals_sym@[k as int]]),
                    sym_index(iota as nat, lde_root_order as nat, k as nat),
                    path_view(paths_sym@[k as int]@),
                )));
            }
            return false;
        }
        if x.is_zero() {
            proof {
                assert(square_iter(x0@, k as nat) == 0);
            }
            return false;
        }
        let e = &evals_sym[k];
        let first = v.add(e).mul(&two_inv);
        let second = zetas[k].mul(&v.sub(e)).mul(&two_inv).mul(&x.inv());
        v = first.add(&second);
        x = x.square();
        proof {
            crate::domain::lemma_fri_layer_halves(lde_root_order as nat, k as nat);
        }
        domain_length = half;
        k = k + 1;
    }
    v.equals(last_value)
}

/// A layer before the last has a domain of at least two points, an even number.
proof fn lemma_layer_len(order: nat, k: nat)
    requires
        k < order,
    ensures
        two_pow((order - k) as nat) >= 2,
        two_pow((order - k) as nat) % 2 == 0,
{
    let e = (order - k - 1) as nat;
    assert((order - k) as nat == e + 1);
    crate::domain::lemma_two_pow_pos(e);
}

/// Coefficient `k` of the folded polynomial `p_even + β·p_odd`, where
/// `p(x) = p_even(x²) + x·p_odd(x²)`.
pub open spec fn folded_coeff(c: Seq<int>, beta: int, k: int) -> int {
    if 2 * k + 1 < c.len() {
        add_mod(c[2 * k], mul_mod(beta, c[2 * k + 1]))
    } else {
        c[2 * k]
    }
}

/// The coefficients of `p_even + β·p_odd`.
pub open spec fn fold_spec(c: Seq<int>, beta: int) -> Seq<int> {
    Seq::new(((c.len() + 1) / 2) as nat, |k: int| folded_coeff(c, beta, k))
}

/// Folds a polynomial with challenge `beta`: `p_even + β·p_odd`.
pub fn fold_polynomial(coeffs: &Vec<Felt>, beta: &Felt) -> (r: Vec<Felt>)
    requires
        all_wf(coeffs@),
        beta.wf(),
    ensures
        all_wf(r@),
        col_values(r@) == fold_spec(col_values(coeffs@), beta@),
{
    let n = coeffs.len();
    let m = n / 2 + n % 2;
    let mut r: Vec<Felt> = Vec::new();
    let mut k: usize = 0;
    while k < m
        invariant
            k <= m,
            m == (n + 1) / 2,
            n == coeffs.len(),
            all_wf(coeffs@),
            beta.wf(),
            r.len() == k,
            all_wf(r@),
            forall|t: int| 0 <= t < k ==> (#[trigger] r@[t])@ == folded_coeff(col_values(coeffs@), beta@, t),
        decreases m - k,
    {
        proof {
            assert(coeffs@[2 * k as int].wf());
        }
        if 2 * k + 1 < n {
            proof {
                assert(coeffs@[2 * k as int + 1].wf());
            }
            r.push(coeffs[2 * k].add(&beta.mul(&coeffs[2 * k + 1])));
        } else {
            r.push(coeffs[2 * k]);
        }
        k = k + 1;
    }
    proof {
        assert(col_values(r@) =~= fold_spec(col_values(coeffs@), beta@));
    }
    r
}

pub(crate) proof fn lemma_next_pow2_of_pow2(n: nat)
    requires
        is_pow2(n),
    ensures
        next_pow2(n) == n,
    decreases n,
{
    if n > 1 {
        assert(n % 2 == 0);
        assert((n + 1) / 2 == n / 2);
        lemma_next_pow2_of_pow2(n / 2);
    }
}

/// One FRI layer: a polynomial, its evaluations on a coset, and the Merkle
/// tree whose leaf `i` holds evaluation `i` alone.
#[derive(Clone, Debug)]
pub struct FriLayer {
    pub poly: Vec<Felt>,
    pub coset_offset: Felt,
    pub domain_size: usize,
    pub evaluation: Vec<Felt>,
    pub merkle_tree: MerkleTree,
}

impl FriLayer {
    /// The evaluations are the polynomial's on the coset `offset·ωⁱ` with `ω` of
    /// order `domain_size`, and the tree commits to them one per leaf.
    pub open spec fn wf(&self) -> bool {
        &&& is_pow2(self.domain_size as nat)
        &&& all_wf(self.poly@)
        &&& self.coset_offset.wf()
        &&& self.evaluation.len() == self.domain_size
        &&& all_wf(self.evaluation@)
        &&& self.merkle_tree.wf()
        &&& self.merkle_tree.levels@[0].len() == self.domain_size
        &&& exists|order: nat| two_pow(order) == self.domain_size && forall|i: int| 0 <= i < self.domain_size ==>
                (#[trigger] self.evaluation@[i])@ == poly_eval(
                    col_values(self.poly@),
                    mul_mod(self.coset_offset@, power_mod(primitive_root(order), i as nat)),
                )
        &&& forall|i: int| 0 <= i < self.domain_size ==>
                (#[trigger] self.merkle_tree.levels@[0]@[i])@ == leaf_hash(seq![self.evaluation@[i]])
    }

    /// Evaluates `poly` on the coset of `domain_size` points shifted by
    /// `coset_offset` and commits to the evaluations.
    pub fn new(poly: Vec<Felt>, coset_offset: &Felt, domain_size: usize) -> (r: FriLayer)
        requires
            is_pow2(domain_size as nat),
            domain_size <= usize::MAX / 8,
            all_wf(poly@),
            coset_offset.wf(),
        ensures
            r.wf(),
            r.poly@ == poly@,
            r.coset_offset == *coset_offset,
            r.domain_size == domain_size,
    {
        let order = log2(domain_size);
        let root = Felt::primitive_root_of_unity(order as u64);
        let points = coset_powers(&root, coset_offset, domain_size);
        let mut evaluation: Vec<Felt> = Vec::new();
        let mut leaves: Vec<Vec<Felt>> = Vec::new();
        let mut i: usize = 0;
        while i < domain_size
            invariant
                i <= domain_size,
                points.len() == domain_size,
                all_wf(points@),
                all_wf(poly@),
                root@ == primitive_root(order as nat),
                forall|t: int| 0 <= t < domain_size ==>
                    (#[trigger] points@[t])@ == mul_mod(coset_offset@, power_mod(root@, t as nat)),
                evaluation.len() == i,
                leaves.len() == i,
                all_wf(evaluation@),
                forall|t: int| 0 <= t < i ==> (#[trigger] evaluation@[t])@
                    == poly_eval(col_values(poly@), points@[t]@),
                forall|t: int| 0 <= t < i ==> (#[trigger] leaves@[t])@ == seq![evaluation@[t]],
            decreases domain_size - i,
        {
            let e = evaluate(&poly, &points[i]);
            evaluation.push(e);
            let leaf = vec![e];
            proof {
                assert(leaf@ =~= seq![e]);
            }
            leaves.push(leaf);
            i = i + 1;
        }
        proof {
            lemma_next_pow2_of_pow2(domain_size as nat);
            crate::domain::lemma_two_pow_pos(order as nat);
        }
        let merkle_tree = match MerkleTree::build(&leaves) {
            Some(t) => t,
            None => {
                proof {
                    assert(false);
                }
                MerkleTree { levels: Vec::new() }
            },
        };
        let r = FriLayer { poly, coset_offset: *coset_offset, domain_size, evaluation, merkle_tree };
        proof {
            assert forall|t: int| 0 <= t < domain_size implies
                (#[trigger] r.merkle_tree.levels@[0]@[t])@ == leaf_hash(seq![r.evaluation@[t]]) by {
                assert(leaves@[t]@ == seq![evaluation@[t]]);
            }
            assert forall|t: int| 0 <= t < domain_size implies
                (#[trigger] r.evaluation@[t])@ == poly_eval(
                    col_values(r.poly@),
                    mul_mod(r.coset_offset@, power_mod(primitive_root(order as nat), t as nat)),
                ) by {
                assert(points@[t]@ == mul_mod(coset_offset@, power_mod(root@, t as nat)));
            }
        }
        r
    }
}

proof fn lemma_fold_state_prefix(a: Seq<u8>, r1: Seq<Seq<u8>>, r2: Seq<Seq<u8>>, k: nat)
    requires
        k <= r1.len(),
        k <= r2.len(),
        forall|i: int| 0 <= i < k ==> r1[i] == r2[i],
    ensures
        fold_state(a, r1, k) == fold_state(a, r2, k),
    decreases k,
{
    if k > 0 {
        lemma_fold_state_prefix(a, r1, r2, (k - 1) as nat);
    }
}

/// The roots of the layers' trees.
pub open spec fn layer_roots(layers: Seq<FriLayer>) -> Seq<Seq<u8>> {
    Seq::new(layers.len(), |k: int| layers[k].merkle_tree.root_spec())
}

/// The constant term of a polynomial, zero for no coefficients.
pub open spec fn constant_term(c: Seq<int>) -> int {
    if c.len() > 0 {
        c[0]
    } else {
        0
    }
}

/// `v` is the constant term of a fold of `last` with some challenge.
pub open spec fn is_last_fold_value(v: int, last: Seq<int>) -> bool {
    exists|beta: int| v == constant_term(#[trigger] fold_spec(last, beta))
}

/// `next` is a fold of `prev` with some challenge.
pub open spec fn folds_from(next: Seq<int>, prev: Seq<int>) -> bool {
    exists|beta: int| next == #[trigger] fold_spec(prev, beta)
}

/// The layers that the commit phase produced from `p_0`: layer `k` has a
/// domain of `domain_size / 2^k` points shifted by the offset squared `k`
/// times, and each layer's polynomial is a fold of the one before.
pub open spec fn fri_layers_ok(layers: Seq<FriLayer>, p_0: Seq<int>, coset_offset: int, domain_size: nat) -> bool {
    &&& layers.len() >= 1
    &&& col_values(layers[0].poly@) == p_0
    &&& forall|k: int| 0 <= k < layers.len() ==> (#[trigger] layers[k]).wf()
    &&& forall|k: int| 0 <= k < layers.len() ==> (#[trigger] layers[k]).domain_size == domain_size / two_pow(k as nat)
    &&& forall|k: int| 0 <= k < layers.len() ==> (#[trigger] layers[k]).coset_offset@ == square_iter(coset_offset, k as nat)
    &&& forall|k: int| 1 <= k < layers.len() ==>
            folds_from(col_values((#[trigger] layers[k]).poly@), col_values(layers[k - 1].poly@))
}

/// The commit phase: commits to `p_0` on its coset, then `number_layers − 1`
/// times draws a challenge, folds, halves the domain and squares the offset,
/// committing each layer's root to the transcript; then draws a last challenge
/// and returns the constant term of the last fold (zero if it has none).
pub fn fri_commit_phase(
    number_layers: usize,
    p_0: Vec<Felt>,
    transcript: &mut StarkTranscript,
    coset_offset: &Felt,
    domain_size: usize,
) -> (r: (Felt, Vec<FriLayer>))
    requires
        number_layers >= 1,
        is_pow2(domain_size as nat),
        domain_size <= usize::MAX / 8,
        two_pow((number_layers - 1) as nat) <= domain_size,
        all_wf(p_0@),
        coset_offset.wf(),
    ensures
        r.0.wf(),
        r.1.len() == number_layers,
        fri_layers_ok(r.1@, col_values(p_0@), coset_offset@, domain_size as nat),
        is_last_fold_value(r.0@, col_values(r.1@[number_layers - 1].poly@)),
        forall|k: int| 1 <= k < number_layers ==> col_values((#[trigger] r.1@[k]).poly@) == fold_spec(
            col_values(r.1@[k - 1].poly@),
            draw_felt(fold_state(old(transcript).absorbed@, layer_roots(r.1@), k as nat))@,
        ),
        r.0@ == constant_term(fold_spec(
            col_values(r.1@[number_layers - 1].poly@),
            draw_felt(fold_state(old(transcript).absorbed@, layer_roots(r.1@), number_layers as nat))@,
        )),
        final(transcript).absorbed@ == fold_state(old(transcript).absorbed@, layer_roots(r.1@), number_layers as nat)
            + crate::field::felt_bytes(r.0),
{
    let ghost p0v = col_values(p_0@);
    let mut size = domain_size;
    let mut offset = *coset_offset;
    let mut current = FriLayer::new(p_0, &offset, size);
    let mut layers: Vec<FriLayer> = Vec::new();
    let ghost a0 = transcript.absorbed@;
    transcript.append(current.merkle_tree.root().as_slice());
    let mut k: usize = 1;
    proof {
        assert(two_pow(0) == 1);
        assert(domain_size as nat / two_pow(0) == domain_size);
    }
    while k < number_layers
        invariant
            1 <= k <= number_layers,
            two_pow((number_layers - 1) as nat) <= domain_size,
            domain_size <= usize::MAX / 8,
            is_pow2(domain_size as nat),
            current.wf(),
            size == current.domain_size,
            size == domain_size as nat / two_pow((k - 1) as nat),
            offset == current.coset_offset,
            offset@ == square_iter(coset_offset@, (k - 1) as nat),
            layers.len() == k - 1,
            k == 1 ==> col_values(current.poly@) == p0v,
            k > 1 ==> col_values(layers@[0].poly@) == p0v,
            forall|j: int| 0 <= j < layers.len() ==> (#[trigger] layers@[j]).wf(),
            forall|j: int| 0 <= j < layers.len() ==> (#[trigger] layers@[j]).domain_size == domain_size as nat / two_pow(j as nat),
            forall|j: int| 0 <= j < layers.len() ==> (#[trigger] layers@[j]).coset_offset@ == square_iter(coset_offset@, j as nat),
            forall|j: int| 1 <= j < layers.len() ==>
                folds_from(col_values((#[trigger] layers@[j]).poly@), col_values(layers@[j - 1].poly@)),
            k > 1 ==> folds_from(col_values(current.poly@), col_values(layers@[k - 2].poly@)),
            a0 == old(transcript).absorbed@,
            transcript.absorbed@ == fold_state(a0, layer_roots(layers@.push(current)), (k - 1) as nat)
                + current.merkle_tree.root_spec(),
            forall|j: int| 1 <= j < k ==> col_values((#[trigger] layers@.push(current)[j]).poly@) == fold_spec(
                col_values(layers@.push(current)[j - 1].poly@),
                draw_felt(fold_state(a0, layer_roots(layers@.push(current)), j as nat))@,
            ),
        decreases number_layers - k,
    {
        let zeta = transcript_to_field(transcript);
        let next_poly = fold_polynomial(&current.poly, &zeta);
        proof {
            crate::domain::lemma_halving_size(domain_size as nat, (k - 1) as nat, (number_layers - 1) as nat);
        }
        let next_size = size / 2;
        let next_offset = offset.square();
        let next = FriLayer::new(next_poly, &next_offset, next_size);
        transcript.append(next.merkle_tree.root().as_slice());
        let ghost prev_poly = col_values(current.poly@);
        let ghost old_layers = layers@;
        let ghost old_all = layers@.push(current);
        layers.push(current);
        proof {
            assert(col_values(next.poly@) == fold_spec(prev_poly, zeta@));
            assert(folds_from(col_values(next.poly@), prev_poly));
            assert(layers@[k - 1].poly@ == current.poly@);
            assert forall|j: int| 1 <= j < layers.len() implies
                folds_from(col_values((#[trigger] layers@[j]).poly@), col_values(layers@[j - 1].poly@)) by {
                if j < layers.len() - 1 {
                    assert(layers@[j] == old_layers[j]);
                    assert(layers@[j - 1] == old_layers[j - 1]);
                } else {
                    assert(layers@[j - 1] == old_layers[j - 1]);
                }
            }
            assert((k - 1) as nat + 1 == k as nat);
        }
        current = next;
        size = next_size;
        offset = next_offset;
        k = k + 1;
        proof {
            let all = layers@.push(current);
            assert(layers@ == old_all);
            assert(all.take(k as int - 1) =~= old_all.take(k as int - 1));
            lemma_fold_state_prefix(a0, layer_roots(old_all), layer_roots(all), (k - 1) as nat);
            assert(zeta == draw_felt(fold_state(a0, layer_roots(all), (k - 1) as nat)));
            assert forall|j: int| 1 <= j < k implies col_values((#[trigger] all[j]).poly@) == fold_spec(
                col_values(all[j - 1].poly@),
                draw_felt(fold_state(a0, layer_roots(all), j as nat))@,
            ) by {
                if j < k - 1 {
                    assert(all[j] == old_all[j]);
                    assert(all[j - 1] == old_all[j - 1]);
                    lemma_fold_state_prefix(a0, layer_roots(old_all), layer_roots(all), j as nat);
                } else {
                    assert(all[j - 1] == old_all[j - 1]);
                }
            }
        }
    }
    let zeta = transcript_to_field(transcript);
    let last_poly = fold_polynomial(&current.poly, &zeta);
    let last_value = if last_poly.len() > 0 { last_poly[0] } else { Felt::zero() };
    transcript.append(last_value.to_bytes_be().as_slice());
    let ghost old_layers = layers@;
    let ghost cur = current;
    proof {
        assert(zeta == draw_felt(fold_state(a0, layer_roots(layers@.push(current)), number_layers as nat)));
    }
    layers.push(current);
    proof {
        assert(layers@[number_layers - 1] == cur);
        assert(col_values(last_poly@) == fold_spec(col_values(cur.poly@), zeta@));
        if last_poly.len() > 0 {
            assert(last_poly@[0].wf());
        }
        assert forall|j: int| 1 <= j < layers.len() implies
            folds_from(col_values((#[trigger] layers@[j]).poly@), col_values(layers@[j - 1].poly@)) by {
            if j < layers.len() - 1 {
                assert(layers@[j] == old_layers[j]);
                assert(layers@[j - 1] == old_layers[j - 1]);
            } else {
                assert(layers@[j - 1] == old_layers[j - 1]);
            }
        }
        assert forall|j: int| 0 <= j < layers.len() implies (#[trigger] layers@[j]).wf()
            && layers@[j].domain_size == domain_size as nat / two_pow(j as nat)
            && layers@[j].coset_offset@ == square_iter(coset_offset@, j as nat) by {
            if j < layers.len() - 1 {
                assert(layers@[j] == old_layers[j]);
            }
        }
        let lv = fold_spec(col_values(layers@[number_layers - 1].poly@), zeta@);
        assert(last_value@ == constant_term(lv));
        assert(is_last_fold_value(last_value@, col_values(layers@[number_layers - 1].poly@)));
    }
    (last_value, layers)
}

/// The symmetric index of query `iota` in a layer of `len` points.
pub open spec fn layer_sym_index(iota: nat, len: nat) -> nat {
    ((iota as int + len as int / 2) % (len as int)) as nat
}

/// A decommitment opens every layer at the query's symmetric index: the
/// evaluation there and the layer tree's path for it.
pub open spec fn decommitment_ok(d: FriDecommitment, layers: Seq<FriLayer>, iota: nat) -> bool {
    &&& d.layers_evaluations_sym.len() == layers.len()
    &&& d.layers_auth_paths_sym.len() == layers.len()
    &&& forall|k: int| 0 <= k < layers.len() ==> {
            let sym = layer_sym_index(iota, layers[k].domain_size as nat);
            &&& (#[trigger] d.layers_evaluations_sym@[k]) == layers[k].evaluation@[sym as int]
            &&& path_view(d.layers_auth_paths_sym@[k]@) == layers[k].merkle_tree.path_spec(sym)
        }
}

/// Opens every layer at the symmetric index of a query.
fn decommit(fri_layers: &Vec<FriLayer>, iota: usize) -> (r: FriDecommitment)
    requires
        forall|k: int| 0 <= k < fri_layers.len() ==> (#[trigger] fri_layers@[k]).wf(),
    ensures
        decommitment_ok(r, fri_layers@, iota as nat),
{
    let mut evals: Vec<Felt> = Vec::new();
    let mut paths: Vec<Vec<[u8; 32]>> = Vec::new();
    let mut k: usize = 0;
    while k < fri_layers.len()
        invariant
            k <= fri_layers.len(),
            forall|j: int| 0 <= j < fri_layers.len() ==> (#[trigger] fri_layers@[j]).wf(),
            evals.len() == k,
            paths.len() == k,
            forall|j: int| 0 <= j < k ==> {
                let sym = layer_sym_index(iota as nat, fri_layers@[j].domain_size as nat);
                &&& (#[trigger] evals@[j]) == fri_layers@[j].evaluation@[sym as int]
                &&& path_view(paths@[j]@) == fri_layers@[j].merkle_tree.path_spec(sym)
            },
        decreases fri_layers.len() - k,
    {
        let layer = &fri_layers[k];
        let len = layer.domain_size;
        proof {
            crate::fibonacci_rap::lemma_next_pow2(len as nat);
            assert(len >= 1);
        }
        let half = len / 2;
        let m = iota % len;
        let sym = if m >= half && len > 1 { m - half } else if len > 1 { m + half } else { 0 };
        proof {
            let l = len as int;
            vstd::arithmetic::div_mod::lemma_add_mod_noop(iota as int, half as int, l);
            vstd::arithmetic::div_mod::lemma_small_mod(half as nat, len as nat);
            if len > 1 {
                assert(len % 2 == 0);
                if m >= half {
                    vstd::arithmetic::div_mod::lemma_mod_add_multiples_vanish(m - half, l);
                    vstd::arithmetic::div_mod::lemma_small_mod((m - half) as nat, len as nat);
                    assert(m + half == l + (m - half));
                } else {
                    vstd::arithmetic::div_mod::lemma_small_mod((m + half) as nat, len as nat);
                }
            } else {
                assert(half == 0);
                vstd::arithmetic::div_mod::lemma_small_mod(m as nat, 1);
            }
            assert(sym as nat == layer_sym_index(iota as nat, len as nat));
        }
        evals.push(layer.evaluation[sym]);
        match layer.merkle_tree.get_proof_by_pos(sym) {
            Some(p) => {
                paths.push(p);
            },
            None => {
                proof {
                    assert(false);
                }
                paths.push(Vec::new());
            },
        }
        k = k + 1;
    }
    FriDecommitment { layers_evaluations_sym: evals, layers_auth_paths_sym: paths }
}

/// The query phase: draws each query's index in `[0, domain_size)` and opens
/// every layer at its symmetric index. Returns the openings and the indices.
pub fn fri_query_phase(
    number_of_queries: usize,
    domain_size: usize,
    fri_layers: &Vec<FriLayer>,
    transcript: &mut StarkTranscript,
) -> (r: (Vec<FriDecommitment>, Vec<usize>))
    requires
        domain_size >= 1,
        forall|k: int| 0 <= k < fri_layers.len() ==> (#[trigger] fri_layers@[k]).wf(),
    ensures
        fri_layers.len() == 0 ==> r.0.len() == 0 && r.1.len() == 0,
        fri_layers.len() > 0 ==> r.0.len() == number_of_queries && r.1.len() == number_of_queries,
        forall|q: int| 0 <= q < r.1.len() ==> (#[trigger] r.1@[q]) < domain_size,
        forall|q: int| 0 <= q < r.0.len() ==> decommitment_ok(#[trigger] r.0@[q], fri_layers@, r.1@[q] as nat),
        forall|q: int| 0 <= q < r.1.len() ==> (#[trigger] r.1@[q])
            == (draw_value(nth_draw(old(transcript).absorbed@, q as nat)) as usize) % domain_size,
        fri_layers.len() == 0 ==> final(transcript).absorbed@ == old(transcript).absorbed@,
{
    let ghost a0 = transcript.absorbed@;
    let mut queries: Vec<FriDecommitment> = Vec::new();
    let mut iotas: Vec<usize> = Vec::new();
    if fri_layers.len() == 0 {
        return (queries, iotas);
    }
    let mut q: usize = 0;
    while q < number_of_queries
        invariant
            q <= number_of_queries,
            domain_size >= 1,
            forall|k: int| 0 <= k < fri_layers.len() ==> (#[trigger] fri_layers@[k]).wf(),
            queries.len() == q,
            iotas.len() == q,
            forall|j: int| 0 <= j < q ==> (#[trigger] iotas@[j]) < domain_size,
            forall|j: int| 0 <= j < q ==> decommitment_ok(#[trigger] queries@[j], fri_layers@, iotas@[j] as nat),
            a0 == old(transcript).absorbed@,
            transcript.absorbed@ == after_draws(a0, q as nat),
            forall|j: int| 0 <= j < q ==> (#[trigger] iotas@[j]) == (draw_value(nth_draw(a0, j as nat)) as usize) % domain_size,
        decreases number_of_queries - q,
    {
        let iota = transcript_to_usize(transcript) % domain_size;
        let d = decommit(fri_layers, iota);
        queries.push(d);
        iotas.push(iota);
        q = q + 1;
    }
    (queries, iotas)
}

/// The query phase's openings pass the verifier's Merkle checks: each layer's
/// symmetric evaluation, as a one-element leaf, leads up its path to the
/// layer's root.
pub proof fn lemma_fri_openings_authenticate(d: FriDecommitment, layers: Seq<FriLayer>, iota: nat, k: int)
    requires
        decommitment_ok(d, layers, iota),
        0 <= k < layers.len(),
        layers[k].wf(),
    ensures
        root_from_path(
            leaf_hash(seq![d.layers_evaluations_sym@[k]]),
            layer_sym_index(iota, layers[k].domain_size as nat),
            path_view(d.layers_auth_paths_sym@[k]@),
        ) == layers[k].merkle_tree.root_spec(),
{
    let layer = layers[k];
    let len = layer.domain_size as nat;
    let sym = layer_sym_index(iota, len);
    crate::fibonacci_rap::lemma_next_pow2(len);
    assert(len >= 1);
    assert(sym < len);
    assert(d.layers_evaluations_sym@[k] == layer.evaluation@[sym as int]);
    assert(layer.merkle_tree.levels@[0]@[sym as int]@ == leaf_hash(seq![layer.evaluation@[sym as int]]));
    lemma_merkle_path_authenticates_leaf(layer.merkle_tree, sym);
}

} // verus!
