use vstd::prelude::*;
use vstd::arithmetic::power::pow;

use crate::air::{AIR, BoundaryConstraint, Frame, all_wf, col_values, frame_values};
use crate::context::{AirContext, is_pow2};
use crate::domain::{Domain, two_pow};
use crate::evaluator::{ConstraintEvaluator, weighted_sum};
use crate::fri::{fri_query_ok, verify_query_and_sym_openings};
use crate::grinding::{is_valid_nonce, nonce_is_valid};
use crate::merkle::{BatchStarkProverBackend, leaf_bytes, leaf_hash, path_view, root_from_path};
use crate::transcript::{
    StarkTranscript, after_draws, batch_sample_challenges, challenge_of, contains_value, draw_felt, draw_felts, draw_value,
    first_outside, in_domains, nth_draw, sample_z_ood, transcript_to_field, transcript_to_usize,
};
use crate::poly::{distinct, interpolate_at, interpolate_eval, prod_sub, zerofier_eval};
use crate::fri::FriDecommitment;
use crate::field::{Felt, felt_bytes, modulus, add_mod, sub_mod, mul_mod, div_mod};

verus! {

/// What a query reveals outside FRI: the trace rows and the composition
/// polynomial's halves at the queried point, with their authentication paths.
#[derive(Clone, Debug)]
pub struct DeepPolynomialOpening {
    pub lde_composition_poly_proof: Vec<[u8; 32]>,
    pub lde_composition_poly_even_evaluation: Felt,
    pub lde_composition_poly_odd_evaluation: Felt,
    pub lde_trace_merkle_proofs: Vec<Vec<[u8; 32]>>,
    pub lde_trace_evaluations: Vec<Felt>,
}

/// A STARK proof.
#[derive(Clone, Debug)]
pub struct StarkProof {
    pub trace_length: usize,
    pub lde_trace_merkle_roots: Vec<[u8; 32]>,
    pub trace_ood_frame_evaluations: Frame,
    pub composition_poly_root: [u8; 32],
    pub composition_poly_even_ood_evaluation: Felt,
    pub composition_poly_odd_ood_evaluation: Felt,
    pub fri_layers_merkle_roots: Vec<[u8; 32]>,
    pub fri_last_value: Felt,
    pub query_list: Vec<FriDecommitment>,
    pub deep_poly_openings: Vec<DeepPolynomialOpening>,
    pub nonce: u64,
}

/// `x` times `y` over the table of a `(column, offset)` pair: the Deep
/// composition polynomial's term for column `col` and frame row `row`.
pub open spec fn deep_trace_term(
    lde: Seq<int>,
    ood: Seq<Seq<int>>,
    divisors: Seq<int>,
    coeffs: Seq<Seq<int>>,
    col: int,
    row: int,
) -> int {
    mul_mod(div_mod(sub_mod(lde[col], ood[row][col]), divisors[row]), coeffs[col][row])
}

/// The sum of the terms of column `col` over the first `rows` frame rows.
pub open spec fn deep_col_sum(
    lde: Seq<int>,
    ood: Seq<Seq<int>>,
    divisors: Seq<int>,
    coeffs: Seq<Seq<int>>,
    col: int,
    rows: nat,
) -> int
    decreases rows,
{
    if rows == 0 {
        0
    } else {
        add_mod(
            deep_col_sum(lde, ood, divisors, coeffs, col, (rows - 1) as nat),
            deep_trace_term(lde, ood, divisors, coeffs, col, rows - 1),
        )
    }
}

/// The sum of the trace terms over the first `cols` columns, each over all rows.
pub open spec fn deep_trace_sum(
    lde: Seq<int>,
    ood: Seq<Seq<int>>,
    divisors: Seq<int>,
    coeffs: Seq<Seq<int>>,
    cols: nat,
) -> int
    decreases cols,
{
    if cols == 0 {
        0
    } else {
        add_mod(
            deep_trace_sum(lde, ood, divisors, coeffs, (cols - 1) as nat),
            deep_col_sum(lde, ood, divisors, coeffs, cols - 1, ood.len()),
        )
    }
}

/// The divisor `υ − z·g^k` of frame row `row`, whose offset is `offsets[row]`.
pub open spec fn deep_divisor(upsilon: int, z: int, g: int, offsets: Seq<usize>, row: int) -> int {
    sub_mod(upsilon, mul_mod(z, pow(g, offsets[row] as nat) % modulus()))
}

/// The divisors of all frame rows.
pub open spec fn deep_divisors(upsilon: int, z: int, g: int, offsets: Seq<usize>) -> Seq<int> {
    Seq::new(offsets.len(), |row: int| deep_divisor(upsilon, z, g, offsets, row))
}

/// The Deep composition polynomial at `υ`:
/// `Σⱼ,ₖ γⱼ,ₖ·(tⱼ(υ) − tⱼ(z·gᵏ))/(υ − z·gᵏ) + γ_even·(H₁(υ) − H₁(z²))/(υ − z²) + γ_odd·(H₂(υ) − H₂(z²))/(υ − z²)`.
pub open spec fn deep_value(
    upsilon: int,
    z: int,
    g: int,
    offsets: Seq<usize>,
    lde: Seq<int>,
    ood: Seq<Seq<int>>,
    coeffs: Seq<Seq<int>>,
    h1_upsilon: int,
    h1_z2: int,
    h2_upsilon: int,
    h2_z2: int,
    gamma_even: int,
    gamma_odd: int,
) -> int {
    let d = sub_mod(upsilon, mul_mod(z, z));
    let trace_terms = deep_trace_sum(lde, ood, deep_divisors(upsilon, z, g, offsets), coeffs, lde.len());
    add_mod(
        add_mod(trace_terms, mul_mod(div_mod(sub_mod(h1_upsilon, h1_z2), d), gamma_even)),
        mul_mod(div_mod(sub_mod(h2_upsilon, h2_z2), d), gamma_odd),
    )
}

/// None of the Deep composition's divisors vanishes.
pub open spec fn deep_divisors_nonzero(upsilon: int, z: int, g: int, offsets: Seq<usize>) -> bool {
    &&& sub_mod(upsilon, mul_mod(z, z)) != 0
    &&& forall|row: int| 0 <= row < offsets.len() ==> #[trigger] deep_divisor(upsilon, z, g, offsets, row) != 0
}

/// The rows of a frame hold `cols` reduced elements each.
pub open spec fn rows_fit(rows: Seq<Vec<Felt>>, cols: nat) -> bool {
    forall|k: int| 0 <= k < rows.len() ==> (#[trigger] rows[k]).len() == cols && all_wf(rows[k]@)
}

/// Reconstructs the Deep composition polynomial at the queried point `υ`
/// from the opened trace row and composition halves and the out-of-domain
/// values; `None` when one of its divisors vanishes.
pub fn reconstruct_deep_composition_poly_evaluation(
    upsilon: &Felt,
    z: &Felt,
    trace_primitive_root: &Felt,
    offsets: &Vec<usize>,
    lde_trace_evaluations: &Vec<Felt>,
    ood: &Vec<Vec<Felt>>,
    trace_term_coeffs: &Vec<Vec<Felt>>,
    h1_upsilon: &Felt,
    h1_z2: &Felt,
    h2_upsilon: &Felt,
    h2_z2: &Felt,
    gamma_even: &Felt,
    gamma_odd: &Felt,
) -> (r: Option<Felt>)
    requires
        upsilon.wf(),
        z.wf(),
        trace_primitive_root.wf(),
        all_wf(lde_trace_evaluations@),
        ood.len() == offsets.len(),
        rows_fit(ood@, lde_trace_evaluations.len() as nat),
        trace_term_coeffs.len() == lde_trace_evaluations.len(),
        rows_fit(trace_term_coeffs@, offsets.len() as nat),
        h1_upsilon.wf(),
        h1_z2.wf(),
        h2_upsilon.wf(),
        h2_z2.wf(),
        gamma_even.wf(),
        gamma_odd.wf(),
    ensures
        r is Some <==> deep_divisors_nonzero(upsilon@, z@, trace_primitive_root@, offsets@),
        r matches Some(v) ==> v.wf() && v@ == deep_value(
            upsilon@,
            z@,
            trace_primitive_root@,
            offsets@,
            col_values(lde_trace_evaluations@),
            frame_values(ood@),
            frame_values(trace_term_coeffs@),
            h1_upsilon@,
            h1_z2@,
            h2_upsilon@,
            h2_z2@,
            gamma_even@,
            gamma_odd@,
        ),
{
    let ghost g = trace_primitive_root@;
    let ghost lde = col_values(lde_trace_evaluations@);
    let ghost oodv = frame_values(ood@);
    let ghost cv = frame_values(trace_term_coeffs@);
    let ghost divs = deep_divisors(upsilon@, z@, g, offsets@);
    let mut divisors: Vec<Felt> = Vec::new();
    let mut row: usize = 0;
    while row < offsets.len()
        invariant
            row <= offsets.len(),
            upsilon.wf(),
            z.wf(),
            trace_primitive_root.wf(),
            g == trace_primitive_root@,
            divs == deep_divisors(upsilon@, z@, g, offsets@),
            divisors.len() == row,
            all_wf(divisors@),
            forall|k: int| 0 <= k < row ==> (#[trigger] divisors@[k])@ == divs[k] && divs[k] != 0,
        decreases offsets.len() - row,
    {
        let p = trace_primitive_root.pow(offsets[row] as u64);
        let dv = upsilon.sub(&z.mul(&p));
        if dv.is_zero() {
            proof {
                assert(deep_divisor(upsilon@, z@, g, offsets@, row as int) == 0);
            }
            return None;
        }
        divisors.push(dv);
        row = row + 1;
    }
    let n_cols = lde_trace_evaluations.len();
    let n_rows = ood.len();
    proof {
        assert forall|k: int| 0 <= k < n_rows implies (#[trigger] divisors@[k])@ != 0 by {
            assert(divisors@[k]@ == divs[k] && divs[k] != 0);
        }
    }
    let mut trace_terms = Felt::zero();
    let mut col: usize = 0;
    while col < n_cols
        invariant
            col <= n_cols,
            n_cols == lde_trace_evaluations.len(),
            n_rows == ood.len(),
            n_rows == offsets.len(),
            divisors.len() == n_rows,
            all_wf(divisors@),
            forall|k: int| 0 <= k < n_rows ==> (#[trigger] divisors@[k])@ == divs[k],
            forall|k: int| 0 <= k < n_rows ==> (#[trigger] divisors@[k])@ != 0,
            divs.len() == n_rows,
            all_wf(lde_trace_evaluations@),
            rows_fit(ood@, n_cols as nat),
            trace_term_coeffs.len() == n_cols,
            rows_fit(trace_term_coeffs@, n_rows as nat),
            lde == col_values(lde_trace_evaluations@),
            oodv == frame_values(ood@),
            cv == frame_values(trace_term_coeffs@),
            trace_terms.wf(),
            trace_terms@ == deep_trace_sum(lde, oodv, divs, cv, col as nat),
        decreases n_cols - col,
    {
        let mut col_sum = Felt::zero();
        let mut row: usize = 0;

        while row < n_rows
            invariant
                col < n_cols,
                row <= n_rows,
                n_cols == lde_trace_evaluations.len(),
                n_rows == ood.len(),
                divisors.len() == n_rows,
                all_wf(divisors@),
                forall|k: int| 0 <= k < n_rows ==> (#[trigger] divisors@[k])@ == divs[k],
                forall|k: int| 0 <= k < n_rows ==> (#[trigger] divisors@[k])@ != 0,
                divs.len() == n_rows,
                all_wf(lde_trace_evaluations@),
                rows_fit(ood@, n_cols as nat),
                trace_term_coeffs.len() == n_cols,
                rows_fit(trace_term_coeffs@, n_rows as nat),
                lde == col_values(lde_trace_evaluations@),
                oodv == frame_values(ood@),
                cv == frame_values(trace_term_coeffs@),
                col_sum.wf(),
                col_sum@ == deep_col_sum(lde, oodv, divs, cv, col as int, row as nat),
            decreases n_rows - row,
        {
            assert(ood@[row as int].len() == n_cols && all_wf(ood@[row as int]@));
            assert(trace_term_coeffs@[col as int].len() == n_rows && all_wf(trace_term_coeffs@[col as int]@));
            let diff = lde_trace_evaluations[col].sub(&ood[row][col]);
            let q = diff.div(&divisors[row]);
            let term = q.mul(&trace_term_coeffs[col][row]);
            col_sum = col_sum.add(&term);
            row = row + 1;
        }
        trace_terms = trace_terms.add(&col_sum);
        col = col + 1;
    }
    let z_squared = z.mul(z);
    let d = upsilon.sub(&z_squared);
    if d.is_zero() {
        return None;
    }
    proof {
        assert forall|row: int| 0 <= row < offsets@.len() implies #[trigger] deep_divisor(upsilon@, z@, g, offsets@, row) != 0 by {
            assert(divisors@[row]@ == divs[row]);
        }
    }
    let h_1_term = h1_upsilon.sub(h1_z2).div(&d).mul(gamma_even);
    let h_2_term = h2_upsilon.sub(h2_z2).div(&d).mul(gamma_odd);
    proof {
        assert(lde.len() == n_cols);
        assert(oodv.len() == n_rows);
    }
    Some(trace_terms.add(&h_1_term).add(&h_2_term))
}

/// The challenges that the verifier replays from the transcript.
#[derive(Clone, Debug)]
pub struct Challenges<R> {
    pub z: Felt,
    pub boundary_coeffs: Vec<(Felt, Felt)>,
    pub transition_coeffs: Vec<(Felt, Felt)>,
    pub trace_term_coeffs: Vec<Vec<Felt>>,
    pub gamma_even: Felt,
    pub gamma_odd: Felt,
    pub zetas: Vec<Felt>,
    pub iotas: Vec<usize>,
    pub rap_challenges: R,
    pub grinding_seed: [u8; 32],
}

/// Both elements of each pair are reduced.
pub open spec fn pairs_wf(s: Seq<(Felt, Felt)>) -> bool {
    forall|i: int| 0 <= i < s.len() ==> (#[trigger] s[i]).0.wf() && s[i].1.wf()
}

/// The boundary constraints on column `j`, in order.
pub open spec fn col_constraints(bcs: Seq<BoundaryConstraint>, j: int) -> Seq<BoundaryConstraint>
    decreases bcs.len(),
{
    if bcs.len() == 0 {
        Seq::empty()
    } else if bcs.last().col == j {
        col_constraints(bcs.drop_last(), j).push(bcs.last())
    } else {
        col_constraints(bcs.drop_last(), j)
    }
}

/// The points `g^step` of constraints.
pub open spec fn bc_points(cs: Seq<BoundaryConstraint>, g: int) -> Seq<int> {
    Seq::new(cs.len(), |k: int| pow(g, cs[k].step as nat) % modulus())
}

/// The values of constraints.
pub open spec fn bc_values(cs: Seq<BoundaryConstraint>) -> Seq<int> {
    Seq::new(cs.len(), |k: int| cs[k].value@)
}

/// The boundary term of column `j` at `z`:
/// `(tⱼ(z) − Iⱼ(z)) / Zⱼ(z) · (α·z^(D−n) + β)`, where `Iⱼ` interpolates the
/// column's fixed values and `Zⱼ` vanishes on their rows.
pub open spec fn boundary_term(
    bcs: Seq<BoundaryConstraint>,
    t_j: int,
    g: int,
    z: int,
    zd: int,
    coeff: (Felt, Felt),
    j: int,
) -> int {
    let cs = col_constraints(bcs, j);
    let xs = bc_points(cs, g);
    mul_mod(
        div_mod(sub_mod(t_j, interpolate_at(xs, bc_values(cs), z)), prod_sub(xs, z)),
        add_mod(mul_mod(coeff.0@, zd), coeff.1@),
    )
}

/// The sum of the boundary terms of the first `cols` columns.
pub open spec fn boundary_sum(
    bcs: Seq<BoundaryConstraint>,
    row0: Seq<int>,
    g: int,
    z: int,
    zd: int,
    coeffs: Seq<(Felt, Felt)>,
    cols: nat,
) -> int
    decreases cols,
{
    if cols == 0 {
        0
    } else {
        let j = cols - 1;
        add_mod(boundary_sum(bcs, row0, g, z, zd, coeffs, (cols - 1) as nat), boundary_term(bcs, row0[j], g, z, zd, coeffs[j], j))
    }
}

/// Each column's boundary rows give distinct points, and `z` is none of them.
pub open spec fn boundary_ok(bcs: Seq<BoundaryConstraint>, g: int, z: int, cols: nat) -> bool {
    forall|j: int| 0 <= j < cols ==> {
        let xs = #[trigger] bc_points(col_constraints(bcs, j), g);
        distinct(xs) && prod_sub(xs, z) != 0
    }
}

/// The exemption polynomial of a constraint exempt on the last `k` rows, at `z`.
pub open spec fn exemption_value(roots: Seq<int>, k: int, z: int) -> int {
    prod_sub(roots.subrange(roots.len() - k, roots.len() as int), z)
}

/// The degree adjustment exponent `D − n·(deg − 1)` of a constraint.
pub open spec fn degree_adjustment(bound: int, n: int, deg: int) -> int {
    bound - n * (deg - 1)
}

/// The transition term of constraint `i` at `z`:
/// `Cᵢ · Eᵢ(z) / (zⁿ − 1) · (α·z^(D−n·(degᵢ−1)) + β)`.
pub open spec fn transition_term(
    c: int,
    roots: Seq<int>,
    exemption: int,
    z: int,
    n: nat,
    bound: int,
    deg: int,
    coeff: (Felt, Felt),
) -> int {
    let inv_zn = div_mod(1, sub_mod(pow(z, n) % modulus(), 1));
    let zadj = pow(z, degree_adjustment(bound, n as int, deg) as nat) % modulus();
    mul_mod(
        mul_mod(c, mul_mod(exemption_value(roots, exemption, z), inv_zn)),
        add_mod(mul_mod(coeff.0@, zadj), coeff.1@),
    )
}

/// The sum of the first `count` transition terms.
pub open spec fn transition_sum(
    evals: Seq<int>,
    roots: Seq<int>,
    exemptions: Seq<usize>,
    degrees: Seq<usize>,
    z: int,
    n: nat,
    bound: int,
    coeffs: Seq<(Felt, Felt)>,
    count: nat,
) -> int
    decreases count,
{
    if count == 0 {
        0
    } else {
        let i = count - 1;
        add_mod(
            transition_sum(evals, roots, exemptions, degrees, z, n, bound, coeffs, (count - 1) as nat),
            transition_term(evals[i], roots, exemptions[i] as int, z, n, bound, degrees[i] as int, coeffs[i]),
        )
    }
}

/// The transition side is computable: `zⁿ ≠ 1` and no degree adjustment is negative.
pub open spec fn transition_ok(degrees: Seq<usize>, z: int, n: nat, bound: int) -> bool {
    &&& sub_mod(pow(z, n) % modulus(), 1) != 0
    &&& forall|i: int| 0 <= i < degrees.len() ==> degree_adjustment(bound, n as int, #[trigger] degrees[i] as int) >= 0
}

/// The constraints' composition polynomial at `z`, recomputed from the
/// out-of-domain trace evaluations: boundary terms plus transition terms.
pub open spec fn composition_value(
    bcs: Seq<BoundaryConstraint>,
    frame: Seq<Seq<int>>,
    evals: Seq<int>,
    ctx: AirContext,
    roots: Seq<int>,
    g: int,
    z: int,
    bound: int,
    boundary_coeffs: Seq<(Felt, Felt)>,
    transition_coeffs: Seq<(Felt, Felt)>,
) -> int {
    let n = ctx.trace_length as nat;
    let zd = pow(z, (bound - n) as nat) % modulus();
    add_mod(
        boundary_sum(bcs, frame[0], g, z, zd, boundary_coeffs, ctx.trace_columns as nat),
        transition_sum(
            evals,
            roots,
            ctx.transition_exemptions@,
            ctx.transition_degrees@,
            z,
            n,
            bound,
            transition_coeffs,
            ctx.num_transition_constraints as nat,
        ),
    )
}

/// The points and values of the boundary constraints on column `j`.
fn col_boundary_points(bcs: &Vec<BoundaryConstraint>, j: usize, g: &Felt) -> (r: (Vec<Felt>, Vec<Felt>))
    requires
        g.wf(),
        forall|i: int| 0 <= i < bcs.len() ==> (#[trigger] bcs@[i]).value.wf(),
    ensures
        col_values(r.0@) == bc_points(col_constraints(bcs@, j as int), g@),
        col_values(r.1@) == bc_values(col_constraints(bcs@, j as int)),
        r.0.len() == r.1.len(),
        all_wf(r.0@),
        all_wf(r.1@),
{
    let mut xs: Vec<Felt> = Vec::new();
    let mut ys: Vec<Felt> = Vec::new();
    let mut i: usize = 0;
    while i < bcs.len()
        invariant
            i <= bcs.len(),
            g.wf(),
            forall|k: int| 0 <= k < bcs.len() ==> (#[trigger] bcs@[k]).value.wf(),
            col_values(xs@) == bc_points(col_constraints(bcs@.take(i as int), j as int), g@),
            col_values(ys@) == bc_values(col_constraints(bcs@.take(i as int), j as int)),
            xs.len() == ys.len(),
            all_wf(xs@),
            all_wf(ys@),
        decreases bcs.len() - i,
    {
        let c = bcs[i];
        proof {
            assert(bcs@.take(i as int + 1).drop_last() =~= bcs@.take(i as int));
            assert(bcs@[i as int].value.wf());
        }
        proof {
            let t = bcs@.take(i as int + 1);
            assert(t.last() == c);
            if c.col == j {
                assert(col_constraints(t, j as int) == col_constraints(bcs@.take(i as int), j as int).push(c));
            } else {
                assert(col_constraints(t, j as int) == col_constraints(bcs@.take(i as int), j as int));
            }
        }
        if c.col == j {
            let ghost old_cs = col_constraints(bcs@.take(i as int), j as int);
            let ghost new_cs = col_constraints(bcs@.take(i as int + 1), j as int);
            let ghost old_x = col_values(xs@);
            let ghost old_xs = xs@;
            let ghost old_y = col_values(ys@);
            let px = g.pow(c.step as u64);
            proof {
                assert(c.step as u64 as nat == c.step as nat);
                assert(old_x.len() == old_xs.len());
                assert(bc_points(old_cs, g@).len() == old_cs.len());
                assert(old_xs.len() == old_cs.len());
            }
            xs.push(px);
            ys.push(c.value);
            proof {
                assert(new_cs.len() == old_cs.len() + 1);
                assert forall|t: int| 0 <= t < new_cs.len() implies #[trigger] col_values(ys@)[t] == bc_values(new_cs)[t] by {
                    if t < old_cs.len() {
                        assert(old_y[t] == bc_values(old_cs)[t]);
                        assert(new_cs[t] == old_cs[t]);
                    } else {
                        assert(new_cs[t] == c);
                    }
                }
                assert(xs@.len() == new_cs.len());
                assert(col_values(xs@).len() == bc_points(new_cs, g@).len());
                assert forall|t: int| 0 <= t < new_cs.len() implies #[trigger] col_values(xs@)[t] == bc_points(new_cs, g@)[t] by {
                    if t < old_cs.len() {
                        assert(xs@[t] == old_xs[t]);
                        assert(old_x[t] == bc_points(old_cs, g@)[t]);
                        assert(new_cs[t] == old_cs[t]);
                    } else {
                        assert(new_cs[t] == c);
                        assert(xs@[t] == px);
                    }
                }
                assert(col_values(xs@) =~= bc_points(new_cs, g@));
                assert(col_values(ys@) =~= bc_values(new_cs));
            }
        }
        i = i + 1;
    }
    proof {
        assert(bcs@.take(bcs.len() as int) =~= bcs@);
    }
    (xs, ys)
}

/// The vanishing polynomial of the last `k` elements of `xs`, at `z`.
fn zerofier_eval_tail(xs: &Vec<Felt>, k: usize, z: &Felt) -> (r: Felt)
    requires
        k <= xs.len(),
        all_wf(xs@),
        z.wf(),
    ensures
        r.wf(),
        r@ == exemption_value(col_values(xs@), k as int, z@),
{
    let n = xs.len();
    let ghost v = col_values(xs@);
    let ghost lo: int = n - k;
    let mut acc = Felt::one();
    let mut i: usize = n - k;
    proof {
        assert(v.subrange(lo, lo) =~= Seq::<int>::empty());
    }
    while i < n
        invariant
            n - k <= i <= n,
            n == xs.len(),
            all_wf(xs@),
            z.wf(),
            acc.wf(),
            v == col_values(xs@),
            v.len() == n,
            k <= n,
            lo == n - k,
            acc@ == prod_sub(v.subrange(lo, i as int), z@),
        decreases n - i,
    {
        proof {
            assert(v.subrange(lo, i as int + 1).drop_last() =~= v.subrange(lo, i as int));
            assert(v.subrange(lo, i as int + 1).last() == xs@[i as int]@);
        }
        acc = acc.mul(&z.sub(&xs[i]));
        i = i + 1;
    }
    acc
}


/// The consistency check at `z` passes: the recomputation is defined and
/// agrees with `H₁(z²) + z·H₂(z²)`.
pub open spec fn composition_check_ok<A: AIR>(
    air: &A,
    proof: &StarkProof,
    domain: &Domain,
    challenges: &Challenges<A::RapChallenges>,
) -> bool {
    let frame = frame_values(proof.trace_ood_frame_evaluations.rows@);
    let z = challenges.z@;
    &&& composition_defined(air, &challenges.rap_challenges, z, domain)
    &&& add_mod(
        proof.composition_poly_even_ood_evaluation@,
        mul_mod(z, proof.composition_poly_odd_ood_evaluation@),
    ) == composition_value(
        air.boundary_spec(&challenges.rap_challenges),
        frame,
        air.transition_spec(frame, &challenges.rap_challenges),
        air.air_context(),
        col_values(domain.trace_roots_of_unity@),
        domain.trace_primitive_root@,
        z,
        air.degree_bound_spec(),
        challenges.boundary_coeffs@,
        challenges.transition_coeffs@,
    )
}

proof fn lemma_weighted_is_transition_sum(
    evals: Seq<int>,
    dens: Seq<int>,
    adjs: Seq<int>,
    roots: Seq<int>,
    exemptions: Seq<usize>,
    degrees: Seq<usize>,
    z: int,
    n: nat,
    bound: int,
    coeffs: Seq<(Felt, Felt)>,
    count: nat,
)
    requires
        count <= dens.len(),
        count <= adjs.len(),
        forall|i: int| 0 <= i < count ==> #[trigger] dens[i] == mul_mod(
            exemption_value(roots, exemptions[i] as int, z),
            div_mod(1, sub_mod(pow(z, n) % modulus(), 1)),
        ),
        forall|i: int| 0 <= i < count ==> #[trigger] adjs[i]
            == pow(z, degree_adjustment(bound, n as int, degrees[i] as int) as nat) % modulus(),
    ensures
        weighted_sum(evals, dens, adjs, coeffs, count)
            == transition_sum(evals, roots, exemptions, degrees, z, n, bound, coeffs, count),
    decreases count,
{
    if count > 0 {
        lemma_weighted_is_transition_sum(evals, dens, adjs, roots, exemptions, degrees, z, n, bound, coeffs, (count - 1) as nat);
        let i = count - 1;
        assert(dens[i] == mul_mod(exemption_value(roots, exemptions[i] as int, z), div_mod(1, sub_mod(pow(z, n) % modulus(), 1))));
        assert(adjs[i] == pow(z, degree_adjustment(bound, n as int, degrees[i] as int) as nat) % modulus());
    }
}

/// The composition polynomial's value at `z` is defined: the degree bound
/// covers the trace, and no boundary or transition divisor vanishes at `z`.
pub open spec fn composition_defined<A: AIR>(
    air: &A,
    rap: &A::RapChallenges,
    z: int,
    domain: &Domain,
) -> bool {
    let ctx = air.air_context();
    let bound = air.degree_bound_spec();
    &&& bound >= ctx.trace_length
    &&& boundary_ok(air.boundary_spec(rap), domain.trace_primitive_root@, z, ctx.trace_columns as nat)
    &&& transition_ok(ctx.transition_degrees@, z, ctx.trace_length as nat, bound)
}

/// The composition polynomial at `z` from the trace values of a frame at `z`:
/// the boundary terms of every column plus the degree-adjusted transition
/// quotients. `None` when it is not defined there.
pub fn evaluate_composition_at<A: AIR>(
    air: &A,
    bcs: &Vec<BoundaryConstraint>,
    frame: &Frame,
    rap: &A::RapChallenges,
    z: &Felt,
    domain: &Domain,
    boundary_coeffs: &Vec<(Felt, Felt)>,
    transition_coeffs: &Vec<(Felt, Felt)>,
) -> (r: Option<Felt>)
    requires
        air.air_wf(),
        air.air_context().wf(),
        air.rap_wf(rap),
        bcs@ == air.boundary_spec(rap),
        forall|i: int| 0 <= i < bcs.len() ==> (#[trigger] bcs@[i]).value.wf(),
        domain.wf(),
        domain.interpolation_domain_size == air.air_context().trace_length,
        frame.fits(air.air_context()),
        air.air_context().transition_offsets.len() >= 1,
        z.wf(),
        boundary_coeffs.len() == air.air_context().trace_columns,
        pairs_wf(boundary_coeffs@),
        transition_coeffs.len() == air.air_context().num_transition_constraints,
        pairs_wf(transition_coeffs@),
    ensures
        r is Some <==> composition_defined(air, rap, z@, domain),
        r matches Some(v) ==> v.wf() && v@ == composition_value(
            air.boundary_spec(rap),
            frame_values(frame.rows@),
            air.transition_spec(frame_values(frame.rows@), rap),
            air.air_context(),
            col_values(domain.trace_roots_of_unity@),
            domain.trace_primitive_root@,
            z@,
            air.degree_bound_spec(),
            boundary_coeffs@,
            transition_coeffs@,
        ),
{
    let ctx = air.context();
    let ghost fv = frame_values(frame.rows@);
    let n = ctx.trace_length;
    let bound = air.composition_poly_degree_bound();
    if bound < n {
        return None;
    }
    
    let g = &domain.trace_primitive_root;
    let zd = z.pow((bound - n) as u64);
    let row0 = &frame.rows[0];
    let n_cols = ctx.trace_columns;
    let ghost gv = g@;
    let ghost bcsv = bcs@;
    proof {
        assert(row0.len() == n_cols && all_wf(row0@));
        assert(fv[0] == col_values(row0@));
    }
    let mut bsum = Felt::zero();
    let mut j: usize = 0;
    while j < n_cols
        invariant
            j <= n_cols,
            n_cols == ctx.trace_columns,
            *ctx == air.air_context(),
            bcsv == bcs@,
            bcs@ == air.boundary_spec(rap),
            forall|i: int| 0 <= i < bcs.len() ==> (#[trigger] bcs@[i]).value.wf(),
            gv == g@,
            *g == domain.trace_primitive_root,
                        g.wf(),
            z.wf(),
            zd.wf(),
            zd@ == pow(z@, (bound - n) as nat) % modulus(),
            row0.len() == n_cols,
            all_wf(row0@),
            fv[0] == col_values(row0@),
            boundary_coeffs.len() == n_cols,
            pairs_wf(boundary_coeffs@),
            bsum.wf(),
            bsum@ == boundary_sum(bcsv, fv[0], gv, z@, zd@, boundary_coeffs@, j as nat),
            boundary_ok(bcsv, gv, z@, j as nat),
        decreases n_cols - j,
    {
        let (xs, ys) = col_boundary_points(&bcs, j, g);
        let interp = interpolate_eval(&xs, &ys, z);
        let ghost xv = bc_points(col_constraints(bcsv, j as int), gv);
        match interp {
            None => {
                proof {
                    assert(!distinct(xv));
                    assert(!boundary_ok(bcsv, gv, z@, n_cols as nat));
                }
                return None;
            },
            Some(iv) => {
                let zer = zerofier_eval(&xs, z);
                if zer.is_zero() {
                    proof {
                        let xs2 = bc_points(col_constraints(bcsv, j as int), gv);
                        assert(!(distinct(xs2) && prod_sub(xs2, z@) != 0));
                    }
                    return None;
                }
                let (alpha, beta) = boundary_coeffs[j];
                proof {
                    assert(boundary_coeffs@[j as int].0.wf());
                    assert(row0@[j as int].wf());
                }
                let weight = alpha.mul(&zd).add(&beta);
                let term = row0[j].sub(&iv).div(&zer).mul(&weight);
                bsum = bsum.add(&term);
                proof {
                    assert forall|jj: int| 0 <= jj < j + 1 implies {
                        let xs3 = #[trigger] bc_points(col_constraints(bcsv, jj), gv);
                        distinct(xs3) && prod_sub(xs3, z@) != 0
                    } by {
                        if jj < j {
                            let xs3 = bc_points(col_constraints(bcsv, jj), gv);
                            assert(distinct(xs3) && prod_sub(xs3, z@) != 0);
                        }
                    }
                }
            },
        }
        j = j + 1;
    }
    let evals = air.compute_transition(frame, rap);
    let one = Felt::one();
    let zn = z.pow(n as u64);
    let zn1 = zn.sub(&one);
    if zn1.is_zero() {
        return None;
    }
    let divisor_x_n = one.div(&zn1);
    let m = ctx.num_transition_constraints;
    let ghost roots = col_values(domain.trace_roots_of_unity@);
    let mut dens: Vec<Felt> = Vec::new();
    let mut adjs: Vec<Felt> = Vec::new();
    let mut i: usize = 0;
    while i < m
        invariant
            i <= m,
            m == ctx.num_transition_constraints,
            *ctx == air.air_context(),
            ctx.wf(),
            n == ctx.trace_length,
            domain.wf(),
            domain.interpolation_domain_size == n,
            roots == col_values(domain.trace_roots_of_unity@),
                        z.wf(),
            bound as int == air.degree_bound_spec(),
            bound >= n,
            divisor_x_n.wf(),
            divisor_x_n@ == div_mod(1, sub_mod(pow(z@, n as nat) % modulus(), 1)),
            dens.len() == i,
            adjs.len() == i,
            all_wf(dens@),
            all_wf(adjs@),
            forall|k: int| 0 <= k < i ==> (#[trigger] dens@[k])@ == mul_mod(
                exemption_value(roots, ctx.transition_exemptions@[k] as int, z@),
                div_mod(1, sub_mod(pow(z@, n as nat) % modulus(), 1)),
            ),
            forall|k: int| 0 <= k < i ==> (#[trigger] adjs@[k])@ == pow(
                z@,
                degree_adjustment(bound as int, n as int, ctx.transition_degrees@[k] as int) as nat,
            ) % modulus(),
            forall|k: int| 0 <= k < i ==> degree_adjustment(bound as int, n as int, #[trigger] ctx.transition_degrees@[k] as int) >= 0,
        decreases m - i,
    {
        let ex = ctx.transition_exemptions[i];
        let deg = ctx.transition_degrees[i];
        proof {
            assert(ex < n);
            assert(deg >= 1);
        }
        let e = zerofier_eval_tail(&domain.trace_roots_of_unity, ex, z);
        dens.push(e.mul(&divisor_x_n));
        proof {
            let a = n as u128;
            let b = (deg - 1) as u128;
            assert(a * b <= 0xffff_ffff_ffff_ffff * 0xffff_ffff_ffff_ffff) by (nonlinear_arith)
                requires a <= 0xffff_ffff_ffff_ffff, b <= 0xffff_ffff_ffff_ffff;
        }
        let shift: u128 = (n as u128) * ((deg - 1) as u128);
        if shift > bound as u128 {
            proof {
                assert(degree_adjustment(bound as int, n as int, ctx.transition_degrees@[i as int] as int) < 0);
            }
            return None;
        }
        let adj = (bound as u128 - shift) as u64;
        adjs.push(z.pow(adj));
        i = i + 1;
    }
    proof {
        lemma_weighted_is_transition_sum(
            col_values(evals@),
            col_values(dens@),
            col_values(adjs@),
            roots,
            ctx.transition_exemptions@,
            ctx.transition_degrees@,
            z@,
            n as nat,
            bound as int,
            transition_coeffs@,
            m as nat,
        );
    }
    let tsum = ConstraintEvaluator::<A>::compute_constraint_composition_poly_evaluations_sum(&evals, &dens, &adjs, &transition_coeffs);
    Some(bsum.add(&tsum))
}

/// The proof's shape fits the AIR and every field element in it is reduced.
pub open spec fn proof_wf<A: AIR>(air: &A, proof: &StarkProof) -> bool {
    let ctx = air.air_context();
    &&& proof.trace_length == ctx.trace_length
    &&& proof.trace_ood_frame_evaluations.fits(ctx)
    &&& proof.composition_poly_even_ood_evaluation.wf()
    &&& proof.composition_poly_odd_ood_evaluation.wf()
    &&& proof.fri_last_value.wf()
    &&& proof.lde_trace_merkle_roots.len() == (if air.num_aux_spec() > 0 { 2int } else { 1int })
    &&& proof.query_list.len() == ctx.options.fri_number_of_queries
    &&& proof.deep_poly_openings.len() == ctx.options.fri_number_of_queries
    &&& forall|i: int| 0 <= i < proof.query_list.len() ==>
            all_wf((#[trigger] proof.query_list@[i]).layers_evaluations_sym@)
    &&& forall|i: int| 0 <= i < proof.deep_poly_openings.len() ==> {
            let op = #[trigger] proof.deep_poly_openings@[i];
            op.lde_composition_poly_even_evaluation.wf() && op.lde_composition_poly_odd_evaluation.wf()
                && all_wf(op.lde_trace_evaluations@)
        }
}

/// The replayed challenges have the shapes the checks need.
pub open spec fn challenges_wf<A: AIR>(air: &A, proof: &StarkProof, c: &Challenges<A::RapChallenges>) -> bool {
    let ctx = air.air_context();
    &&& c.z.wf()
    &&& c.boundary_coeffs.len() == ctx.trace_columns
    &&& pairs_wf(c.boundary_coeffs@)
    &&& c.transition_coeffs.len() == ctx.num_transition_constraints
    &&& pairs_wf(c.transition_coeffs@)
    &&& c.trace_term_coeffs.len() == ctx.trace_columns
    &&& rows_fit(c.trace_term_coeffs@, ctx.transition_offsets.len() as nat)
    &&& c.gamma_even.wf()
    &&& c.gamma_odd.wf()
    &&& all_wf(c.zetas@)
    &&& c.zetas.len() == proof.fri_layers_merkle_roots.len()
    &&& c.iotas.len() == ctx.options.fri_number_of_queries
    &&& air.rap_wf(&c.rap_challenges)
}

/// The part of an opened trace row that trace commitment `k` holds: the main
/// columns for the first commitment, the auxiliary ones for the second.
pub open spec fn trace_part(row: Seq<Felt>, num_main: int, k: int) -> Seq<Felt> {
    if k == 0 {
        row.subrange(0, num_main)
    } else {
        row.subrange(num_main, row.len() as int)
    }
}

/// Query `i` passes: its index lies in the extension domain, its trace rows and
/// composition halves are authenticated, and FRI accepts it from the Deep
/// composition polynomial's value reconstructed at the queried point.
pub open spec fn query_ok<A: AIR>(
    air: &A,
    proof: &StarkProof,
    domain: &Domain,
    c: &Challenges<A::RapChallenges>,
    i: int,
) -> bool {
    let ctx = air.air_context();
    let iota = c.iotas@[i];
    let op = proof.deep_poly_openings@[i];
    let num_main = ctx.trace_columns - air.num_aux_spec();
    let upsilon = domain.lde_roots_of_unity_coset@[iota as int];
    &&& iota < domain.lde_roots_of_unity_coset.len()
    &&& op.lde_trace_evaluations.len() == ctx.trace_columns
    &&& op.lde_trace_merkle_proofs.len() == proof.lde_trace_merkle_roots.len()
    &&& proof.composition_poly_root@ == root_from_path(
        leaf_hash(seq![op.lde_composition_poly_even_evaluation, op.lde_composition_poly_odd_evaluation]),
        iota as nat,
        path_view(op.lde_composition_poly_proof@),
    )
    &&& forall|k: int| 0 <= k < proof.lde_trace_merkle_roots.len() ==>
            (#[trigger] proof.lde_trace_merkle_roots@[k])@ == root_from_path(
                leaf_hash(trace_part(op.lde_trace_evaluations@, num_main, k)),
                iota as nat,
                path_view(op.lde_trace_merkle_proofs@[k]@),
            )
    &&& deep_divisors_nonzero(upsilon@, c.z@, domain.trace_primitive_root@, ctx.transition_offsets@)
    &&& fri_query_ok(
        proof.fri_layers_merkle_roots@,
        col_values(c.zetas@),
        proof.fri_last_value@,
        iota as nat,
        deep_value(
            upsilon@,
            c.z@,
            domain.trace_primitive_root@,
            ctx.transition_offsets@,
            col_values(op.lde_trace_evaluations@),
            frame_values(proof.trace_ood_frame_evaluations.rows@),
            frame_values(c.trace_term_coeffs@),
            op.lde_composition_poly_even_evaluation@,
            proof.composition_poly_even_ood_evaluation@,
            op.lde_composition_poly_odd_evaluation@,
            proof.composition_poly_odd_ood_evaluation@,
            c.gamma_even@,
            c.gamma_odd@,
        ),
        upsilon@,
        proof.query_list@[i].layers_evaluations_sym@,
        proof.query_list@[i].layers_auth_paths_sym@,
        domain.lde_root_order as nat,
    )
}

/// The elements `v[from..to]`.
fn copy_range(v: &Vec<Felt>, from: usize, to: usize) -> (r: Vec<Felt>)
    requires
        from <= to <= v.len(),
    ensures
        r@ == v@.subrange(from as int, to as int),
{
    let mut r: Vec<Felt> = Vec::new();
    let mut i: usize = from;
    while i < to
        invariant
            from <= i <= to,
            to <= v.len(),
            r@ == v@.subrange(from as int, i as int),
        decreases to - i,
    {
        r.push(v[i]);
        i = i + 1;
        proof {
            assert(r@ =~= v@.subrange(from as int, i as int));
        }
    }
    r
}

/// Checks query `i`: the trace and composition openings at its index, then
/// FRI from the reconstructed Deep composition value.
pub fn verify_query<A: AIR>(
    air: &A,
    proof: &StarkProof,
    domain: &Domain,
    c: &Challenges<A::RapChallenges>,
    i: usize,
) -> (r: bool)
    requires
        air.air_wf(),
        air.air_context().wf(),
        domain.wf(),
        proof_wf(air, proof),
        challenges_wf(air, proof, c),
        i < c.iotas.len(),
    ensures
        r == query_ok(air, proof, domain, c, i as int),
{
    let ctx = air.context();
    let iota = c.iotas[i];
    if iota >= domain.lde_roots_of_unity_coset.len() {
        return false;
    }
    let op = &proof.deep_poly_openings[i];
    proof {
        assert(op.lde_composition_poly_even_evaluation.wf());
    }
    if op.lde_trace_evaluations.len() != ctx.trace_columns
        || op.lde_trace_merkle_proofs.len() != proof.lde_trace_merkle_roots.len() {
        return false;
    }
    let backend = BatchStarkProverBackend::new();
    let comp_leaf = vec![op.lde_composition_poly_even_evaluation, op.lde_composition_poly_odd_evaluation];
    proof {
        assert(comp_leaf@ =~= seq![op.lde_composition_poly_even_evaluation, op.lde_composition_poly_odd_evaluation]);
    }
    if !backend.verify_path(&proof.composition_poly_root, iota, &comp_leaf, &op.lde_composition_poly_proof) {
        return false;
    }
    let num_main = ctx.trace_columns - air.number_auxiliary_rap_columns();
    let n_roots = proof.lde_trace_merkle_roots.len();
    let mut k: usize = 0;
    while k < n_roots
        invariant
            k <= n_roots,
            n_roots == proof.lde_trace_merkle_roots.len(),
            *ctx == air.air_context(),
            *op == proof.deep_poly_openings@[i as int],
            op.lde_trace_evaluations.len() == ctx.trace_columns,
            op.lde_trace_merkle_proofs.len() == n_roots,
            num_main == ctx.trace_columns - air.num_aux_spec(),
            num_main <= ctx.trace_columns,
            iota == c.iotas@[i as int],
            forall|j: int| 0 <= j < k ==>
                (#[trigger] proof.lde_trace_merkle_roots@[j])@ == root_from_path(
                    leaf_hash(trace_part(op.lde_trace_evaluations@, num_main as int, j)),
                    iota as nat,
                    path_view(op.lde_trace_merkle_proofs@[j]@),
                ),
        decreases n_roots - k,
    {
        let part = if k == 0 {
            copy_range(&op.lde_trace_evaluations, 0, num_main)
        } else {
            copy_range(&op.lde_trace_evaluations, num_main, op.lde_trace_evaluations.len())
        };
        if !backend.verify_path(&proof.lde_trace_merkle_roots[k], iota, &part, &op.lde_trace_merkle_proofs[k]) {
            return false;
        }
        k = k + 1;
    }
    let upsilon = &domain.lde_roots_of_unity_coset[iota];
    proof {
        assert(upsilon.wf());
        assert(rows_fit(proof.trace_ood_frame_evaluations.rows@, op.lde_trace_evaluations.len() as nat));
    }
    let deep = reconstruct_deep_composition_poly_evaluation(
        upsilon,
        &c.z,
        &domain.trace_primitive_root,
        &ctx.transition_offsets,
        &op.lde_trace_evaluations,
        &proof.trace_ood_frame_evaluations.rows,
        &c.trace_term_coeffs,
        &op.lde_composition_poly_even_evaluation,
        &proof.composition_poly_even_ood_evaluation,
        &op.lde_composition_poly_odd_evaluation,
        &proof.composition_poly_odd_ood_evaluation,
        &c.gamma_even,
        &c.gamma_odd,
    );
    match deep {
        None => false,
        Some(v0) => {
            proof {
                assert(all_wf(proof.query_list@[i as int].layers_evaluations_sym@));
            }
            verify_query_and_sym_openings(
                &proof.fri_layers_merkle_roots,
                &c.zetas,
                &proof.fri_last_value,
                iota,
                &v0,
                upsilon,
                &proof.query_list[i],
                domain.lde_root_order,
                domain.lde_roots_of_unity_coset.len(),
            )
        },
    }
}

/// Every check passes under the challenges `c`: the grinding nonce, the
/// consistency at `z`, and each query.
pub open spec fn accepts<A: AIR>(air: &A, proof: &StarkProof, domain: &Domain, c: &Challenges<A::RapChallenges>) -> bool {
    &&& nonce_is_valid(c.grinding_seed@, proof.nonce, air.air_context().options.grinding_factor)
    &&& composition_check_ok(air, proof, domain, c)
    &&& forall|i: int| 0 <= i < c.iotas.len() ==> #[trigger] query_ok(air, proof, domain, c, i)
}

/// Runs every check under replayed challenges. All queries are checked, whatever
/// the outcome of the earlier ones.
pub fn verify_with_challenges<A: AIR>(
    air: &A,
    proof: &StarkProof,
    domain: &Domain,
    c: &Challenges<A::RapChallenges>,
) -> (r: bool)
    requires
        air.air_wf(),
        air.air_context().wf(),
        air.air_context().transition_offsets.len() >= 1,
        domain.wf(),
        domain.interpolation_domain_size == air.air_context().trace_length,
        proof_wf(air, proof),
        challenges_wf(air, proof, c),
    ensures
        r == accepts(air, proof, domain, c),
{
    let grinding_ok = is_valid_nonce(&c.grinding_seed, proof.nonce, air.context().options.grinding_factor);
    let composition_ok = step_2_verify_claimed_composition_polynomial(air, proof, domain, c);
    let mut queries_ok = true;
    let mut i: usize = 0;
    while i < c.iotas.len()
        invariant
            i <= c.iotas.len(),
            air.air_wf(),
            air.air_context().wf(),
            domain.wf(),
            proof_wf(air, proof),
            challenges_wf(air, proof, c),
            queries_ok == forall|j: int| 0 <= j < i ==> #[trigger] query_ok(air, proof, domain, c, j),
        decreases c.iotas.len() - i,
    {
        let ok = verify_query(air, proof, domain, c, i);
        queries_ok = queries_ok && ok;
        i = i + 1;
    }
    grinding_ok && composition_ok && queries_ok
}

/// Whether the proof's shape fits the AIR and its field elements are reduced.
pub fn check_proof_shape<A: AIR>(air: &A, proof: &StarkProof) -> (r: bool)
    requires
        air.air_wf(),
    ensures
        r == proof_wf(air, proof),
{
    let ctx = air.context();
    if proof.trace_length != ctx.trace_length {
        return false;
    }
    let frame = &proof.trace_ood_frame_evaluations;
    if frame.rows.len() != ctx.transition_offsets.len() {
        return false;
    }
    let mut k: usize = 0;
    while k < frame.rows.len()
        invariant
            k <= frame.rows.len(),
            *frame == proof.trace_ood_frame_evaluations,
            *ctx == air.air_context(),
            forall|j: int| 0 <= j < k ==> (#[trigger] frame.rows@[j]).len() == ctx.trace_columns && all_wf(frame.rows@[j]@),
        decreases frame.rows.len() - k,
    {
        if frame.rows[k].len() != ctx.trace_columns || !all_reduced(&frame.rows[k]) {
            return false;
        }
        k = k + 1;
    }
    if !proof.composition_poly_even_ood_evaluation.is_reduced()
        || !proof.composition_poly_odd_ood_evaluation.is_reduced()
        || !proof.fri_last_value.is_reduced() {
        return false;
    }
    let n_roots: usize = if air.number_auxiliary_rap_columns() > 0 { 2 } else { 1 };
    if proof.lde_trace_merkle_roots.len() != n_roots {
        return false;
    }
    let q = ctx.options.fri_number_of_queries;
    if proof.query_list.len() != q || proof.deep_poly_openings.len() != q {
        return false;
    }
    let mut i: usize = 0;
    while i < q
        invariant
            i <= q,
            q == proof.query_list.len(),
            q == proof.deep_poly_openings.len(),
            forall|j: int| 0 <= j < i ==> all_wf((#[trigger] proof.query_list@[j]).layers_evaluations_sym@),
            forall|j: int| 0 <= j < i ==> {
                let op = #[trigger] proof.deep_poly_openings@[j];
                op.lde_composition_poly_even_evaluation.wf() && op.lde_composition_poly_odd_evaluation.wf()
                    && all_wf(op.lde_trace_evaluations@)
            },
        decreases q - i,
    {
        let op = &proof.deep_poly_openings[i];
        if !all_reduced(&proof.query_list[i].layers_evaluations_sym)
            || !op.lde_composition_poly_even_evaluation.is_reduced()
            || !op.lde_composition_poly_odd_evaluation.is_reduced()
            || !all_reduced(&op.lde_trace_evaluations) {
            return false;
        }
        i = i + 1;
    }
    true
}

/// Whether a frame fits a context: one row per offset, one reduced element
/// per column.
pub fn frame_fits(frame: &Frame, ctx: &AirContext) -> (r: bool)
    ensures
        r == frame.fits(*ctx),
{
    if frame.rows.len() != ctx.transition_offsets.len() {
        return false;
    }
    let mut k: usize = 0;
    while k < frame.rows.len()
        invariant
            k <= frame.rows.len(),
            forall|j: int| 0 <= j < k ==> (#[trigger] frame.rows@[j]).len() == ctx.trace_columns && all_wf(frame.rows@[j]@),
        decreases frame.rows.len() - k,
    {
        if frame.rows[k].len() != ctx.trace_columns || !all_reduced(&frame.rows[k]) {
            return false;
        }
        k = k + 1;
    }
    true
}

/// Whether every element is reduced.
pub fn all_reduced(v: &Vec<Felt>) -> (r: bool)
    ensures
        r == all_wf(v@),
{
    let mut i: usize = 0;
    while i < v.len()
        invariant
            i <= v.len(),
            forall|j: int| 0 <= j < i ==> (#[trigger] v@[j]).wf(),
        decreases v.len() - i,
    {
        if !v[i].is_reduced() {
            return false;
        }
        i = i + 1;
    }
    true
}

/// The bytes of rows of field elements, absorbed row by row.
pub open spec fn rows_bytes(rows: Seq<Vec<Felt>>) -> Seq<u8>
    decreases rows.len(),
{
    if rows.len() == 0 {
        Seq::empty()
    } else {
        rows_bytes(rows.drop_last()) + leaf_bytes(rows.last()@)
    }
}

/// The pairs `(xᵢ, yᵢ)`.
pub open spec fn zip_spec(x: Seq<Felt>, y: Seq<Felt>) -> Seq<(Felt, Felt)> {
    Seq::new(x.len(), |i: int| (x[i], y[i]))
}

/// What the sponge holds after the trace-term coefficients of the first `j`
/// columns, `n` draws each, are drawn from `a`.
pub open spec fn term_coeffs_state(a: Seq<u8>, n: nat, j: nat) -> Seq<u8>
    decreases j,
{
    if j == 0 {
        a
    } else {
        after_draws(term_coeffs_state(a, n, (j - 1) as nat), n)
    }
}

/// What the sponge holds after the first `k` FRI roots are absorbed from `a`,
/// each followed by a draw.
pub open spec fn fold_state(a: Seq<u8>, roots: Seq<Seq<u8>>, k: nat) -> Seq<u8>
    decreases k,
{
    if k == 0 {
        a
    } else {
        challenge_of(fold_state(a, roots, (k - 1) as nat) + roots[k - 1])
    }
}

/// The AIR's challenges, and what the sponge holds once the trace roots are absorbed.
pub open spec fn rap_state<A: AIR>(air: &A, proof: &StarkProof, a0: Seq<u8>) -> (A::RapChallenges, Seq<u8>) {
    let rap = air.rap_spec(a0 + proof.lde_trace_merkle_roots@[0]@);
    let a = if proof.lde_trace_merkle_roots.len() > 1 {
        rap.1 + proof.lde_trace_merkle_roots@[1]@
    } else {
        rap.1
    };
    (rap.0, a)
}

/// What the sponge holds after the four coefficient batches are drawn from `a`.
pub open spec fn coeffs_state(a: Seq<u8>, cols: nat, m: nat) -> Seq<u8> {
    after_draws(after_draws(after_draws(after_draws(a, cols), cols), m), m)
}

/// What the sponge holds when the out-of-domain point is drawn.
pub open spec fn before_z_state<A: AIR>(air: &A, proof: &StarkProof, a0: Seq<u8>) -> Seq<u8> {
    let ctx = air.air_context();
    coeffs_state(rap_state(air, proof, a0).1, ctx.trace_columns as nat, ctx.num_transition_constraints as nat)
        + proof.composition_poly_root@
}

/// The index of the draw that gives the out-of-domain point.
pub open spec fn z_index(a: Seq<u8>, lde: Seq<Felt>, trace: Seq<Felt>) -> nat {
    choose|k: nat| first_outside(a, lde, trace, k)
}

/// Some draw gives the out-of-domain point.
pub open spec fn z_found<A: AIR>(air: &A, proof: &StarkProof, domain: &Domain, a0: Seq<u8>) -> bool {
    exists|k: nat| #[trigger] first_outside(before_z_state(air, proof, a0),
        domain.lde_roots_of_unity_coset@, domain.trace_roots_of_unity@, k)
}

/// What the sponge holds after the out-of-domain values are absorbed.
pub open spec fn after_ood_state<A: AIR>(air: &A, proof: &StarkProof, domain: &Domain, a0: Seq<u8>) -> Seq<u8> {
    let a = before_z_state(air, proof, a0);
    nth_draw(a, z_index(a, domain.lde_roots_of_unity_coset@, domain.trace_roots_of_unity@))
        + felt_bytes(proof.composition_poly_even_ood_evaluation)
        + felt_bytes(proof.composition_poly_odd_ood_evaluation)
        + rows_bytes(proof.trace_ood_frame_evaluations.rows@)
}

/// What the sponge holds when the grinding seed is drawn.
pub open spec fn before_seed_state<A: AIR>(air: &A, proof: &StarkProof, domain: &Domain, a0: Seq<u8>) -> Seq<u8> {
    let ctx = air.air_context();
    let a = challenge_of(challenge_of(after_ood_state(air, proof, domain, a0)));
    let t = term_coeffs_state(a, ctx.transition_offsets.len() as nat, ctx.trace_columns as nat);
    fold_state(t, path_view(proof.fri_layers_merkle_roots@), proof.fri_layers_merkle_roots.len() as nat)
        + felt_bytes(proof.fri_last_value)
}

/// `c` holds the challenges that replaying the proof on a sponge holding `a0`
/// draws, in the order of the protocol: main root, AIR challenges, auxiliary
/// root, boundary and transition coefficients, composition root, `z`,
/// `H₁(z²)`, `H₂(z²)`, the out-of-domain frame, `γ_even`, `γ_odd`, the
/// trace-term coefficients, each FRI root with its fold challenge, the last
/// value, the grinding seed, the nonce, and the query indices.
pub open spec fn replayed<A: AIR>(
    air: &A,
    proof: &StarkProof,
    domain: &Domain,
    a0: Seq<u8>,
    c: &Challenges<A::RapChallenges>,
) -> bool {
    let ctx = air.air_context();
    let cols = ctx.trace_columns as nat;
    let m = ctx.num_transition_constraints as nat;
    let n_off = ctx.transition_offsets.len() as nat;
    let rs = rap_state(air, proof, a0);
    let a3 = rs.1;
    let a8 = before_z_state(air, proof, a0);
    let k = z_index(a8, domain.lde_roots_of_unity_coset@, domain.trace_roots_of_unity@);
    let a10 = after_ood_state(air, proof, domain, a0);
    let a12 = challenge_of(challenge_of(a10));
    let a13 = term_coeffs_state(a12, n_off, cols);
    let a15 = before_seed_state(air, proof, domain, a0);
    let a16 = challenge_of(a15) + crate::field::u64_be_bytes(proof.nonce);
    let big_n = domain.lde_roots_of_unity_coset.len();
    &&& z_found(air, proof, domain, a0)
    &&& c.rap_challenges == rs.0
    &&& c.boundary_coeffs@ == zip_spec(draw_felts(a3, cols), draw_felts(after_draws(a3, cols), cols))
    &&& c.transition_coeffs@ == zip_spec(
        draw_felts(after_draws(after_draws(a3, cols), cols), m),
        draw_felts(after_draws(after_draws(after_draws(a3, cols), cols), m), m),
    )
    &&& c.z == draw_felt(nth_draw(a8, k))
    &&& c.gamma_even == draw_felt(challenge_of(a10))
    &&& c.gamma_odd == draw_felt(challenge_of(challenge_of(a10)))
    &&& c.trace_term_coeffs.len() == cols
    &&& forall|j: int| 0 <= j < cols ==> (#[trigger] c.trace_term_coeffs@[j])@
            == draw_felts(term_coeffs_state(a12, n_off, j as nat), n_off)
    &&& c.zetas.len() == proof.fri_layers_merkle_roots.len()
    &&& forall|j: int| 0 <= j < c.zetas.len() ==> (#[trigger] c.zetas@[j])
            == draw_felt(fold_state(a13, path_view(proof.fri_layers_merkle_roots@), (j + 1) as nat))
    &&& c.grinding_seed@ == challenge_of(a15)
    &&& c.iotas.len() == ctx.options.fri_number_of_queries
    &&& forall|i: int| 0 <= i < c.iotas.len() ==> (#[trigger] c.iotas@[i])
            == (draw_value(nth_draw(a16, i as nat)) as usize) % big_n
}

pub proof fn lemma_first_outside_unique(a: Seq<u8>, lde: Seq<Felt>, trace: Seq<Felt>, k1: nat, k2: nat)
    requires
        first_outside(a, lde, trace, k1),
        first_outside(a, lde, trace, k2),
    ensures
        k1 == k2,
{
    if k1 < k2 {
        assert(in_domains(lde, trace, draw_felt(nth_draw(a, k1))));
    } else if k2 < k1 {
        assert(in_domains(lde, trace, draw_felt(nth_draw(a, k2))));
    }
}

/// Replays the prover's transcript: absorbs the proof's commitments and values
/// where the prover did and draws the challenges in the same order. `None`
/// exactly when no draw gives an out-of-domain point.
pub fn step_1_replay_rounds_and_recover_challenges<A: AIR>(
    air: &A,
    proof: &StarkProof,
    domain: &Domain,
    transcript: &mut StarkTranscript,
) -> (r: Option<Challenges<A::RapChallenges>>)
    requires
        air.air_wf(),
        proof.lde_trace_merkle_roots.len() >= 1,
        domain.lde_roots_of_unity_coset.len() >= 1,
    ensures
        r is Some <==> z_found(air, proof, domain, old(transcript).absorbed@),
        r matches Some(c) ==> replayed(air, proof, domain, old(transcript).absorbed@, &c)
            && challenges_wf(air, proof, &c)
            && !contains_value(domain.lde_roots_of_unity_coset@, c.z)
            && !contains_value(domain.trace_roots_of_unity@, c.z)
            && forall|i: int| 0 <= i < c.iotas.len() ==> #[trigger] c.iotas@[i] < domain.lde_roots_of_unity_coset.len(),
{
    let ghost a0 = transcript.absorbed@;
    let ctx = air.context();
    let total_columns = ctx.trace_columns;
    let m = ctx.num_transition_constraints;
    transcript.append(proof.lde_trace_merkle_roots[0].as_slice());
    let rap_challenges = air.build_rap_challenges(transcript);
    if proof.lde_trace_merkle_roots.len() > 1 {
        transcript.append(proof.lde_trace_merkle_roots[1].as_slice());
    }
    let ghost a3 = transcript.absorbed@;
    proof {
        assert(a3 == rap_state(air, proof, a0).1);
    }
    let boundary_alphas = batch_sample_challenges(total_columns, transcript);
    let boundary_betas = batch_sample_challenges(total_columns, transcript);
    let transition_alphas = batch_sample_challenges(m, transcript);
    let transition_betas = batch_sample_challenges(m, transcript);
    let boundary_coeffs = zip_pairs(&boundary_alphas, &boundary_betas);
    let transition_coeffs = zip_pairs(&transition_alphas, &transition_betas);
    proof {
        assert(boundary_coeffs@ =~= zip_spec(boundary_alphas@, boundary_betas@));
        assert(transition_coeffs@ =~= zip_spec(transition_alphas@, transition_betas@));
    }
    transcript.append(proof.composition_poly_root.as_slice());
    let ghost a8 = transcript.absorbed@;
    proof {
        assert(a8 == before_z_state(air, proof, a0));
    }
    let z = match sample_z_ood(&domain.lde_roots_of_unity_coset, &domain.trace_roots_of_unity, transcript) {
        Some(z) => z,
        None => {
            proof {
                if z_found(air, proof, domain, a0) {
                    let k = choose|k: nat| #[trigger] first_outside(a8, domain.lde_roots_of_unity_coset@, domain.trace_roots_of_unity@, k);
                    assert(in_domains(domain.lde_roots_of_unity_coset@, domain.trace_roots_of_unity@, draw_felt(nth_draw(a8, k))));
                }
            }
            return None;
        },
    };
    proof {
        let k = choose|k: nat| #[trigger] first_outside(a8, domain.lde_roots_of_unity_coset@, domain.trace_roots_of_unity@, k)
            && z == draw_felt(nth_draw(a8, k)) && transcript.absorbed@ == nth_draw(a8, k);
        assert(z_found(air, proof, domain, a0));
        let k2 = z_index(a8, domain.lde_roots_of_unity_coset@, domain.trace_roots_of_unity@);
        lemma_first_outside_unique(a8, domain.lde_roots_of_unity_coset@, domain.trace_roots_of_unity@, k, k2);
    }
    transcript.append(proof.composition_poly_even_ood_evaluation.to_bytes_be().as_slice());
    transcript.append(proof.composition_poly_odd_ood_evaluation.to_bytes_be().as_slice());
    let frame = &proof.trace_ood_frame_evaluations;
    let ghost a9 = transcript.absorbed@;
    let mut row: usize = 0;
    while row < frame.rows.len()
        invariant
            row <= frame.rows.len(),
            transcript.absorbed@ == a9 + rows_bytes(frame.rows@.take(row as int)),
        decreases frame.rows.len() - row,
    {
        let r = &frame.rows[row];
        let ghost before = transcript.absorbed@;
        let mut col: usize = 0;
        while col < r.len()
            invariant
                col <= r.len(),
                transcript.absorbed@ == before + leaf_bytes(r@.take(col as int)),
            decreases r.len() - col,
        {
            proof {
                assert(r@.take(col as int + 1).drop_last() =~= r@.take(col as int));
            }
            transcript.append(r[col].to_bytes_be().as_slice());
            col = col + 1;
            proof {
                assert(transcript.absorbed@ =~= before + leaf_bytes(r@.take(col as int)));
            }
        }
        proof {
            assert(r@.take(r.len() as int) =~= r@);
            assert(frame.rows@.take(row as int + 1).drop_last() =~= frame.rows@.take(row as int));
        }
        row = row + 1;
        proof {
            assert(transcript.absorbed@ =~= a9 + rows_bytes(frame.rows@.take(row as int)));
        }
    }
    proof {
        assert(frame.rows@.take(frame.rows.len() as int) =~= frame.rows@);
        assert(transcript.absorbed@ == after_ood_state(air, proof, domain, a0));
    }
    let gamma_even = transcript_to_field(transcript);
    let gamma_odd = transcript_to_field(transcript);
    let ghost a12 = transcript.absorbed@;
    let n_offsets = ctx.transition_offsets.len();
    let mut trace_term_coeffs: Vec<Vec<Felt>> = Vec::new();
    let mut col: usize = 0;
    while col < total_columns
        invariant
            col <= total_columns,
            trace_term_coeffs.len() == col,
            rows_fit(trace_term_coeffs@, n_offsets as nat),
            transcript.absorbed@ == term_coeffs_state(a12, n_offsets as nat, col as nat),
            forall|j: int| 0 <= j < col ==> (#[trigger] trace_term_coeffs@[j])@
                == draw_felts(term_coeffs_state(a12, n_offsets as nat, j as nat), n_offsets as nat),
        decreases total_columns - col,
    {
        let coeffs = batch_sample_challenges(n_offsets, transcript);
        trace_term_coeffs.push(coeffs);
        col = col + 1;
        proof {
            assert forall|k: int| 0 <= k < trace_term_coeffs.len() implies (#[trigger] trace_term_coeffs@[k]).len() == n_offsets
                && all_wf(trace_term_coeffs@[k]@) by {
            }
        }
    }
    let ghost a13 = transcript.absorbed@;
    let mut zetas: Vec<Felt> = Vec::new();
    let n_layers = proof.fri_layers_merkle_roots.len();
    let mut k: usize = 0;
    while k < n_layers
        invariant
            k <= n_layers,
            n_layers == proof.fri_layers_merkle_roots.len(),
            zetas.len() == k,
            all_wf(zetas@),
            transcript.absorbed@ == fold_state(a13, path_view(proof.fri_layers_merkle_roots@), k as nat),
            forall|j: int| 0 <= j < k ==> (#[trigger] zetas@[j])
                == draw_felt(fold_state(a13, path_view(proof.fri_layers_merkle_roots@), (j + 1) as nat)),
        decreases n_layers - k,
    {
        transcript.append(proof.fri_layers_merkle_roots[k].as_slice());
        zetas.push(transcript_to_field(transcript));
        k = k + 1;
    }
    transcript.append(proof.fri_last_value.to_bytes_be().as_slice());
    proof {
        assert(transcript.absorbed@ == before_seed_state(air, proof, domain, a0));
    }
    let grinding_seed = transcript.challenge();
    let nonce_bytes = nonce_be_bytes(proof.nonce);
    transcript.append(nonce_bytes.as_slice());
    let ghost a16 = transcript.absorbed@;
    let iota_max = domain.lde_roots_of_unity_coset.len();
    let q = ctx.options.fri_number_of_queries;
    let mut iotas: Vec<usize> = Vec::new();
    let mut i: usize = 0;
    while i < q
        invariant
            i <= q,
            iota_max >= 1,
            iotas.len() == i,
            transcript.absorbed@ == after_draws(a16, i as nat),
            forall|j: int| 0 <= j < i ==> #[trigger] iotas@[j] < iota_max,
            forall|j: int| 0 <= j < i ==> (#[trigger] iotas@[j]) == (draw_value(nth_draw(a16, j as nat)) as usize) % iota_max,
        decreases q - i,
    {
        iotas.push(transcript_to_usize(transcript) % iota_max);
        i = i + 1;
    }
    let c = Challenges {
        z,
        boundary_coeffs,
        transition_coeffs,
        trace_term_coeffs,
        gamma_even,
        gamma_odd,
        zetas,
        iotas,
        rap_challenges,
        grinding_seed,
    };
    proof {
        assert(replayed(air, proof, domain, a0, &c));
    }
    Some(c)
}

/// The eight big-endian bytes of a nonce.
pub(crate) fn nonce_be_bytes(nonce: u64) -> (r: Vec<u8>)
    ensures
        r@ == crate::field::u64_be_bytes(nonce),
{
    let mut out: Vec<u8> = Vec::new();
    let mut k: u64 = 0;
    while k < 8
        invariant
            k <= 8,
            out@ == crate::field::u64_be_bytes(nonce).take(k as int),
        decreases 8 - k,
    {
        out.push((nonce >> (56 - 8 * k)) as u8);
        k = k + 1;
        proof {
            assert(out@ =~= crate::field::u64_be_bytes(nonce).take(k as int));
        }
    }
    proof {
        assert(crate::field::u64_be_bytes(nonce).take(8) =~= crate::field::u64_be_bytes(nonce));
    }
    out
}

/// Pairs `(aᵢ, bᵢ)`.
pub(crate) fn zip_pairs(a: &Vec<Felt>, b: &Vec<Felt>) -> (r: Vec<(Felt, Felt)>)
    requires
        a.len() == b.len(),
        all_wf(a@),
        all_wf(b@),
    ensures
        r.len() == a.len(),
        pairs_wf(r@),
        forall|i: int| 0 <= i < a.len() ==> (#[trigger] r@[i]) == (a@[i], b@[i]),
{
    let mut r: Vec<(Felt, Felt)> = Vec::new();
    let mut i: usize = 0;
    while i < a.len()
        invariant
            i <= a.len(),
            a.len() == b.len(),
            all_wf(a@),
            all_wf(b@),
            r.len() == i,
            pairs_wf(r@),
            forall|j: int| 0 <= j < i ==> (#[trigger] r@[j]) == (a@[j], b@[j]),
        decreases a.len() - i,
    {
        r.push((a[i], b[i]));
        i = i + 1;
    }
    r
}

/// The domain of an AIR's context.
pub open spec fn domain_for<A: AIR>(air: &A, d: &Domain) -> bool {
    let ctx = air.air_context();
    &&& d.wf()
    &&& d.interpolation_domain_size == ctx.trace_length
    &&& d.lde_roots_of_unity_coset.len() == ctx.trace_length * ctx.options.blowup_factor
    &&& d.coset_offset@ == ctx.options.coset_offset
}

proof fn lemma_two_pow_injective(a: nat, b: nat)
    requires
        two_pow(a) == two_pow(b),
    ensures
        a == b,
{
    crate::domain::lemma_two_pow_mono(a, b);
    crate::domain::lemma_two_pow_mono(b, a);
}

proof fn lemma_felt_seq_unique(x: Seq<Felt>, y: Seq<Felt>)
    requires
        x.len() == y.len(),
        forall|i: int| 0 <= i < x.len() ==> (#[trigger] x[i])@ == y[i]@,
    ensures
        x == y,
{
    assert forall|i: int| 0 <= i < x.len() implies #[trigger] x[i] == y[i] by {
        crate::field::lemma_limbs_unique(x[i], y[i]);
    }
    assert(x =~= y);
}

/// Two domains of one context agree on every point.
proof fn lemma_domain_unique<A: AIR>(air: &A, d1: &Domain, d2: &Domain)
    requires
        domain_for(air, d1),
        domain_for(air, d2),
    ensures
        d1.root_order == d2.root_order,
        d1.lde_root_order == d2.lde_root_order,
        d1.trace_primitive_root == d2.trace_primitive_root,
        d1.lde_roots_of_unity_coset@ == d2.lde_roots_of_unity_coset@,
        d1.trace_roots_of_unity@ == d2.trace_roots_of_unity@,
{
    lemma_two_pow_injective(d1.root_order as nat, d2.root_order as nat);
    lemma_two_pow_injective(d1.lde_root_order as nat, d2.lde_root_order as nat);
    crate::field::lemma_limbs_unique(d1.trace_primitive_root, d2.trace_primitive_root);
    crate::field::lemma_limbs_unique(d1.coset_offset, d2.coset_offset);
    lemma_felt_seq_unique(d1.lde_roots_of_unity_coset@, d2.lde_roots_of_unity_coset@);
    lemma_felt_seq_unique(d1.trace_roots_of_unity@, d2.trace_roots_of_unity@);
}

/// The verdict does not depend on which copy of the domain and of the
/// replayed challenges it is computed from.
proof fn lemma_accepts_determined<A: AIR>(
    air: &A,
    proof: &StarkProof,
    d1: &Domain,
    c1: &Challenges<A::RapChallenges>,
    d2: &Domain,
    c2: &Challenges<A::RapChallenges>,
)
    requires
        domain_for(air, d1),
        domain_for(air, d2),
        replayed(air, proof, d1, Seq::empty(), c1),
        replayed(air, proof, d2, Seq::empty(), c2),
    ensures
        accepts(air, proof, d1, c1) == accepts(air, proof, d2, c2),
{
    lemma_domain_unique(air, d1, d2);
    assert(c1.boundary_coeffs@ == c2.boundary_coeffs@);
    assert(c1.transition_coeffs@ == c2.transition_coeffs@);
    assert(c1.zetas@ =~= c2.zetas@);
    assert(c1.iotas@ =~= c2.iotas@);
    assert(c1.grinding_seed@ == c2.grinding_seed@);
    assert(frame_values(c1.trace_term_coeffs@) =~= frame_values(c2.trace_term_coeffs@)) by {
        assert forall|j: int| 0 <= j < c1.trace_term_coeffs.len() implies
            (#[trigger] c1.trace_term_coeffs@[j])@ == c2.trace_term_coeffs@[j]@ by {
        }
    }
    assert(composition_check_ok(air, proof, d1, c1) == composition_check_ok(air, proof, d2, c2));
    assert forall|i: int| 0 <= i < c1.iotas.len() implies
        #[trigger] query_ok(air, proof, d1, c1, i) == query_ok(air, proof, d2, c2, i) by {
    }
    if accepts(air, proof, d1, c1) {
        assert forall|i: int| 0 <= i < c2.iotas.len() implies #[trigger] query_ok(air, proof, d2, c2, i) by {
            assert(query_ok(air, proof, d1, c1, i));
        }
    }
    if accepts(air, proof, d2, c2) {
        assert forall|i: int| 0 <= i < c1.iotas.len() implies #[trigger] query_ok(air, proof, d1, c1, i) by {
            assert(query_ok(air, proof, d2, c2, i));
        }
    }
}

/// Verifies a proof against an AIR: replays the transcript from a fresh
/// sponge, then checks the grinding nonce, the consistency at the
/// out-of-domain point and every query. It accepts exactly when the proof is
/// well formed, the replay draws an out-of-domain point, and every check
/// passes under the replayed challenges.
pub fn verify<A: AIR>(proof: &StarkProof, air: &A) -> (r: bool)
    requires
        air.air_wf(),
        air.air_context().wf(),
        air.air_context().transition_offsets.len() >= 1,
        is_pow2(air.air_context().options.blowup_factor as nat),
        air.air_context().trace_length * air.air_context().options.blowup_factor <= usize::MAX / 2,
    ensures
        r == (proof_wf(air, proof) && exists|d: Domain, c: Challenges<A::RapChallenges>|
            domain_for(air, &d) && replayed(air, proof, &d, Seq::empty(), &c) && #[trigger] accepts(air, proof, &d, &c)),
{
    if !check_proof_shape(air, proof) {
        return false;
    }
    let domain = Domain::new(air.context());
    proof {
        assert(domain.lde_roots_of_unity_coset.len() >= 1) by (nonlinear_arith)
            requires domain.lde_roots_of_unity_coset.len() == air.air_context().trace_length * air.air_context().options.blowup_factor,
                air.air_context().trace_length >= 1, air.air_context().options.blowup_factor >= 1;
    }
    let mut transcript = StarkTranscript::new();
    let challenges = match step_1_replay_rounds_and_recover_challenges(air, proof, &domain, &mut transcript) {
        Some(c) => c,
        None => {
            proof {
                assert forall|d: Domain, c: Challenges<A::RapChallenges>|
                    domain_for(air, &d) && replayed(air, proof, &d, Seq::empty(), &c) implies
                    !#[trigger] accepts(air, proof, &d, &c) by {
                    lemma_domain_unique(air, &d, &domain);
                    assert(z_found(air, proof, &d, Seq::empty()) == z_found(air, proof, &domain, Seq::empty()));
                }
            }
            return false;
        },
    };
    let r = verify_with_challenges(air, proof, &domain, &challenges);
    proof {
        assert forall|d: Domain, c: Challenges<A::RapChallenges>|
            domain_for(air, &d) && replayed(air, proof, &d, Seq::empty(), &c) implies
            #[trigger] accepts(air, proof, &d, &c) == r by {
            lemma_accepts_determined(air, proof, &d, &c, &domain, &challenges);
        }
        if r {
            assert(domain_for(air, &domain) && replayed(air, proof, &domain, Seq::empty(), &challenges)
                && accepts(air, proof, &domain, &challenges));
        }
    }
    r
}

/// The consistency check at the out-of-domain point: the composition
/// polynomial recomputed from the trace evaluations at `z` equals
/// `H₁(z²) + z·H₂(z²)`, the value its two committed halves give. It fails, too,
/// where the recomputation is not defined.
pub fn step_2_verify_claimed_composition_polynomial<A: AIR>(
    air: &A,
    proof: &StarkProof,
    domain: &Domain,
    challenges: &Challenges<A::RapChallenges>,
) -> (r: bool)
    requires
        air.air_wf(),
        air.air_context().wf(),
        air.rap_wf(&challenges.rap_challenges),
        domain.wf(),
        domain.interpolation_domain_size == air.air_context().trace_length,
        air.air_context().transition_offsets.len() >= 1,
        challenges.z.wf(),
        challenges.boundary_coeffs.len() == air.air_context().trace_columns,
        pairs_wf(challenges.boundary_coeffs@),
        challenges.transition_coeffs.len() == air.air_context().num_transition_constraints,
        pairs_wf(challenges.transition_coeffs@),
    ensures
        r == (proof.trace_ood_frame_evaluations.fits(air.air_context())
            && proof.composition_poly_even_ood_evaluation.wf()
            && proof.composition_poly_odd_ood_evaluation.wf()
            && composition_check_ok(air, proof, domain, challenges)),
{
    if !frame_fits(&proof.trace_ood_frame_evaluations, air.context())
        || !proof.composition_poly_even_ood_evaluation.is_reduced()
        || !proof.composition_poly_odd_ood_evaluation.is_reduced() {
        return false;
    }
    let bcs = air.boundary_constraints(&challenges.rap_challenges);
    let value = evaluate_composition_at(
        air,
        &bcs,
        &proof.trace_ood_frame_evaluations,
        &challenges.rap_challenges,
        &challenges.z,
        domain,
        &challenges.boundary_coeffs,
        &challenges.transition_coeffs,
    );
    match value {
        None => false,
        Some(total) => {
            let z = &challenges.z;
            let claimed = proof.composition_poly_even_ood_evaluation.add(&z.mul(&proof.composition_poly_odd_ood_evaluation));
            claimed.equals(&total)
        },
    }
}

/// A proof that the verifier accepts satisfies the composition identity at its
/// out-of-domain point: `H₁(z²) + z·H₂(z²)` equals the composition polynomial
/// recomputed from the out-of-domain trace evaluations, and `z` is not a root
/// of the trace domain's vanishing polynomial `xⁿ − 1`.
pub proof fn lemma_accepted_proof_satisfies_composition_identity<A: AIR>(
    air: &A,
    proof: &StarkProof,
    domain: &Domain,
    c: &Challenges<A::RapChallenges>,
)
    requires
        accepts(air, proof, domain, c),
    ensures
        add_mod(proof.composition_poly_even_ood_evaluation@, mul_mod(c.z@, proof.composition_poly_odd_ood_evaluation@))
            == composition_value(
                air.boundary_spec(&c.rap_challenges),
                frame_values(proof.trace_ood_frame_evaluations.rows@),
                air.transition_spec(frame_values(proof.trace_ood_frame_evaluations.rows@), &c.rap_challenges),
                air.air_context(),
                col_values(domain.trace_roots_of_unity@),
                domain.trace_primitive_root@,
                c.z@,
                air.degree_bound_spec(),
                c.boundary_coeffs@,
                c.transition_coeffs@,
            ),
        sub_mod(pow(c.z@, air.air_context().trace_length as nat) % modulus(), 1) != 0,
{
}

/// In an accepted proof every transition constraint's quotient,
/// of degree `n·(degᵢ − 1)`, fits within the composition polynomial's degree
/// bound `D`, so each degree adjustment `D − n·(degᵢ − 1)` is non-negative.
pub proof fn lemma_accepted_transition_quotients_fit_bound<A: AIR>(
    air: &A,
    proof: &StarkProof,
    domain: &Domain,
    c: &Challenges<A::RapChallenges>,
    i: int,
)
    requires
        accepts(air, proof, domain, c),
        0 <= i < air.air_context().transition_degrees.len(),
    ensures
        air.air_context().trace_length * (air.air_context().transition_degrees@[i] - 1) <= air.degree_bound_spec(),
{
    let ctx = air.air_context();
    assert(degree_adjustment(air.degree_bound_spec(), ctx.trace_length as int, ctx.transition_degrees@[i] as int) >= 0);
}

/// An honest nonce passes the replay's grinding check: when the nonce meets
/// the grinding factor for the seed that replaying the proof draws over one
/// domain of the context, it meets it for the seed replayed over any copy of
/// that domain.
pub proof fn lemma_replayed_seed_accepts_valid_nonce<A: AIR>(
    air: &A,
    proof: &StarkProof,
    d1: &Domain,
    d2: &Domain,
    c: &Challenges<A::RapChallenges>,
)
    requires
        domain_for(air, d1),
        domain_for(air, d2),
        replayed(air, proof, d1, Seq::empty(), c),
        nonce_is_valid(
            challenge_of(before_seed_state(air, proof, d2, Seq::empty())),
            proof.nonce,
            air.air_context().options.grinding_factor,
        ),
    ensures
        nonce_is_valid(c.grinding_seed@, proof.nonce, air.air_context().options.grinding_factor),
{
    lemma_domain_unique(air, d1, d2);
    assert(before_seed_state(air, proof, d1, Seq::empty()) == before_seed_state(air, proof, d2, Seq::empty()));
}

/// A proof whose replay draws an out-of-domain point over one domain of the
/// context draws one over any copy of it, so the verifier's replay succeeds.
pub proof fn lemma_z_found_for_every_domain<A: AIR>(air: &A, proof: &StarkProof, d1: &Domain, d2: &Domain)
    requires
        domain_for(air, d1),
        domain_for(air, d2),
        z_found(air, proof, d2, Seq::empty()),
    ensures
        z_found(air, proof, d1, Seq::empty()),
{
    lemma_domain_unique(air, d1, d2);
}

} // verus!
