use vstd::prelude::*;

use crate::air::{AIR, BoundaryConstraint, Frame, TraceTable, all_wf, col_values, frame_values};
use crate::domain::Domain;
use crate::field::Felt;
use crate::field::{add_mod, mul_mod};
use crate::stark_verifier::{composition_defined, composition_value, evaluate_composition_at, pairs_wf};

verus! {

/// The least of four lengths: the terms that a sum over four sequences pairs up.
pub open spec fn min_len(a: nat, b: nat, c: nat, d: nat) -> nat {
    let ab = if a < b { a } else { b };
    let cd = if c < d { c } else { d };
    if ab < cd { ab } else { cd }
}

/// The frame at point `i` of an extended trace: for each offset `k`, the row
/// `(i + k·blowup) mod N` of every column.
pub open spec fn lde_frame(cols: Seq<Vec<Felt>>, i: int, blowup: int, offsets: Seq<usize>, n: int) -> Seq<Seq<int>> {
    Seq::new(
        offsets.len(),
        |k: int| Seq::new(cols.len(), |c: int| cols[c]@[(i + offsets[k] * blowup) % n]@),
    )
}

/// An extended trace: `columns` columns of `n` reduced elements each.
pub open spec fn lde_fits(t: TraceTable, columns: nat, n: nat) -> bool {
    &&& t.cols.len() == columns
    &&& forall|c: int| 0 <= c < t.cols.len() ==> (#[trigger] t.cols@[c]).len() == n && all_wf(t.cols@[c]@)
}

/// Reads the frame at point `i` of an extended trace whose rows are `blowup`
/// apart per trace step.
pub fn read_frame(lde_trace: &TraceTable, i: usize, blowup: usize, offsets: &Vec<usize>, n: usize) -> (r: Frame)
    requires
        lde_fits(*lde_trace, lde_trace.cols.len() as nat, n as nat),
        n > 0,
    ensures
        r.rows.len() == offsets.len(),
        forall|k: int| 0 <= k < r.rows.len() ==> (#[trigger] r.rows@[k]).len() == lde_trace.cols.len()
            && all_wf(r.rows@[k]@),
        frame_values(r.rows@) == lde_frame(lde_trace.cols@, i as int, blowup as int, offsets@, n as int),
{
    let ghost spec_frame = lde_frame(lde_trace.cols@, i as int, blowup as int, offsets@, n as int);
    let mut rows: Vec<Vec<Felt>> = Vec::new();
    let mut k: usize = 0;
    while k < offsets.len()
        invariant
            k <= offsets.len(),
            n > 0,
            lde_fits(*lde_trace, lde_trace.cols.len() as nat, n as nat),
            spec_frame == lde_frame(lde_trace.cols@, i as int, blowup as int, offsets@, n as int),
            rows.len() == k,
            forall|j: int| 0 <= j < k ==> (#[trigger] rows@[j]).len() == lde_trace.cols.len() && all_wf(rows@[j]@),
            forall|j: int| 0 <= j < k ==> col_values((#[trigger] rows@[j])@) == spec_frame[j],
        decreases offsets.len() - k,
    {
        proof {
            let a = offsets@[k as int] as u128;
            let b = blowup as u128;
            assert(a * b <= 0xffff_ffff_ffff_ffff * 0xffff_ffff_ffff_ffff) by (nonlinear_arith)
                requires a <= 0xffff_ffff_ffff_ffff, b <= 0xffff_ffff_ffff_ffff;
        }
        let step = (offsets[k] as u128) * (blowup as u128);
        let idx = ((i as u128 + step) % (n as u128)) as usize;
        let mut row: Vec<Felt> = Vec::new();
        let mut c: usize = 0;
        while c < lde_trace.cols.len()
            invariant
                c <= lde_trace.cols.len(),
                idx < n,
                idx == (i + offsets@[k as int] * blowup) % (n as int),
                lde_fits(*lde_trace, lde_trace.cols.len() as nat, n as nat),
                row.len() == c,
                all_wf(row@),
                forall|cc: int| 0 <= cc < c ==> (#[trigger] row@[cc]) == lde_trace.cols@[cc]@[idx as int],
            decreases lde_trace.cols.len() - c,
        {
            proof {
                assert(lde_trace.cols@[c as int].len() == n && all_wf(lde_trace.cols@[c as int]@));
            }
            row.push(lde_trace.cols[c][idx]);
            c = c + 1;
        }
        proof {
            assert(col_values(row@) =~= spec_frame[k as int]);
        }
        rows.push(row);
        k = k + 1;
    }
    let r = Frame { rows };
    proof {
        assert(frame_values(r.rows@) =~= spec_frame);
    }
    r
}

/// Evaluates the composition polynomial on the extension coset from the
/// extended trace: at each point, the boundary and transition terms of the
/// frame read there.
pub struct ConstraintEvaluator<'a, A: AIR> {
    pub air: &'a A,
    pub boundary_constraints: Vec<BoundaryConstraint>,
    pub primitive_root: Felt,
}

impl<'a, A: AIR> ConstraintEvaluator<'a, A> {
    pub fn new(air: &'a A, primitive_root: &Felt, rap_challenges: &A::RapChallenges) -> (r: ConstraintEvaluator<'a, A>)
        requires
            air.air_wf(),
            air.rap_wf(rap_challenges),
        ensures
            r.air == air,
            r.boundary_constraints@ == air.boundary_spec(rap_challenges),
            forall|i: int| 0 <= i < r.boundary_constraints.len() ==> (#[trigger] r.boundary_constraints@[i]).value.wf(),
            r.primitive_root == *primitive_root,
    {
        let boundary_constraints = air.boundary_constraints(rap_challenges);
        ConstraintEvaluator { air, boundary_constraints, primitive_root: *primitive_root }
    }

/// The sum `Σᵢ Cᵢ · denᵢ · (αᵢ·adjᵢ + βᵢ)` over the transition constraints.
    pub fn compute_constraint_composition_poly_evaluations_sum(
        evaluations: &Vec<Felt>,
        inverse_denominators: &Vec<Felt>,
        degree_adjustments: &Vec<Felt>,
        constraint_coeffs: &Vec<(Felt, Felt)>,
    ) -> (r: Felt)
        requires
            all_wf(evaluations@),
            all_wf(inverse_denominators@),
            all_wf(degree_adjustments@),
            pairs_wf(constraint_coeffs@),
        ensures
            r.wf(),
            r@ == weighted_sum(
                col_values(evaluations@),
                col_values(inverse_denominators@),
                col_values(degree_adjustments@),
                constraint_coeffs@,
                min_len(evaluations.len() as nat, inverse_denominators.len() as nat,
                    degree_adjustments.len() as nat, constraint_coeffs.len() as nat),
            ),
    {
        let mut n = evaluations.len();
        if inverse_denominators.len() < n {
            n = inverse_denominators.len();
        }
        if degree_adjustments.len() < n {
            n = degree_adjustments.len();
        }
        if constraint_coeffs.len() < n {
            n = constraint_coeffs.len();
        }
        let mut acc = Felt::zero();
        let mut i: usize = 0;
        while i < n
            invariant
                i <= n,
                n <= evaluations.len(),
                n <= inverse_denominators.len(),
                n <= degree_adjustments.len(),
                n <= constraint_coeffs.len(),
                all_wf(evaluations@),
                all_wf(inverse_denominators@),
                all_wf(degree_adjustments@),
                pairs_wf(constraint_coeffs@),
                acc.wf(),
                acc@ == weighted_sum(
                    col_values(evaluations@),
                    col_values(inverse_denominators@),
                    col_values(degree_adjustments@),
                    constraint_coeffs@,
                    i as nat,
                ),
            decreases n - i,
        {
            let (alpha, beta) = constraint_coeffs[i];
            proof {
                assert(constraint_coeffs@[i as int].0.wf());
            }
            let weight = alpha.mul(&degree_adjustments[i]).add(&beta);
            let term = evaluations[i].mul(&inverse_denominators[i]).mul(&weight);
            acc = acc.add(&term);
            i = i + 1;
        }
        acc
    }

    /// The composition polynomial at every point of the extension coset; `None`
    /// when it is undefined at one of them.
    pub fn evaluate(
        &self,
        lde_trace: &TraceTable,
        domain: &Domain,
        alpha_and_beta_transition_coefficients: &Vec<(Felt, Felt)>,
        alpha_and_beta_boundary_coefficients: &Vec<(Felt, Felt)>,
        rap_challenges: &A::RapChallenges,
    ) -> (r: Option<Vec<Felt>>)
        requires
            self.air.air_wf(),
            self.air.air_context().wf(),
            self.air.rap_wf(rap_challenges),
            self.boundary_constraints@ == self.air.boundary_spec(rap_challenges),
            forall|i: int| 0 <= i < self.boundary_constraints.len() ==> (#[trigger] self.boundary_constraints@[i]).value.wf(),
            domain.wf(),
            domain.interpolation_domain_size == self.air.air_context().trace_length,
            self.air.air_context().transition_offsets.len() >= 1,
            lde_fits(*lde_trace, self.air.air_context().trace_columns as nat, domain.lde_roots_of_unity_coset.len() as nat),
            alpha_and_beta_boundary_coefficients.len() == self.air.air_context().trace_columns,
            pairs_wf(alpha_and_beta_boundary_coefficients@),
            alpha_and_beta_transition_coefficients.len() == self.air.air_context().num_transition_constraints,
            pairs_wf(alpha_and_beta_transition_coefficients@),
        ensures
            r is Some <==> forall|i: int| 0 <= i < domain.lde_roots_of_unity_coset.len() ==>
                composition_defined(self.air, rap_challenges, (#[trigger] domain.lde_roots_of_unity_coset@[i])@, domain),
            r matches Some(v) ==> v.len() == domain.lde_roots_of_unity_coset.len() && all_wf(v@)
                && forall|i: int| 0 <= i < v.len() ==> {
                    let frame = lde_frame(lde_trace.cols@, i, domain.blowup_factor as int, self.air.air_context().transition_offsets@, v.len() as int);
                    (#[trigger] v@[i])@ == composition_value(
                        self.air.boundary_spec(rap_challenges),
                        frame,
                        self.air.transition_spec(frame, rap_challenges),
                        self.air.air_context(),
                        col_values(domain.trace_roots_of_unity@),
                        domain.trace_primitive_root@,
                        domain.lde_roots_of_unity_coset@[i]@,
                        self.air.degree_bound_spec(),
                        alpha_and_beta_boundary_coefficients@,
                        alpha_and_beta_transition_coefficients@,
                    )
                },
    {
        let n = domain.lde_roots_of_unity_coset.len();
        let ctx = self.air.context();
        let mut out: Vec<Felt> = Vec::new();
        if n == 0 {
            return Some(out);
        }
        let mut i: usize = 0;
        while i < n
            invariant
                i <= n,
                n == domain.lde_roots_of_unity_coset.len(),
                n > 0,
                *ctx == self.air.air_context(),
                self.air.air_wf(),
                self.air.air_context().wf(),
                self.air.rap_wf(rap_challenges),
                self.boundary_constraints@ == self.air.boundary_spec(rap_challenges),
                forall|k: int| 0 <= k < self.boundary_constraints.len() ==> (#[trigger] self.boundary_constraints@[k]).value.wf(),
                domain.wf(),
                domain.interpolation_domain_size == self.air.air_context().trace_length,
                self.air.air_context().transition_offsets.len() >= 1,
                lde_fits(*lde_trace, self.air.air_context().trace_columns as nat, n as nat),
                alpha_and_beta_boundary_coefficients.len() == self.air.air_context().trace_columns,
                pairs_wf(alpha_and_beta_boundary_coefficients@),
                alpha_and_beta_transition_coefficients.len() == self.air.air_context().num_transition_constraints,
                pairs_wf(alpha_and_beta_transition_coefficients@),
                out.len() == i,
                all_wf(out@),
                forall|j: int| 0 <= j < i ==> composition_defined(self.air, rap_challenges, (#[trigger] domain.lde_roots_of_unity_coset@[j])@, domain),
                forall|j: int| 0 <= j < i ==> {
                    let frame = lde_frame(lde_trace.cols@, j, domain.blowup_factor as int, ctx.transition_offsets@, n as int);
                    (#[trigger] out@[j])@ == composition_value(
                        self.air.boundary_spec(rap_challenges),
                        frame,
                        self.air.transition_spec(frame, rap_challenges),
                        self.air.air_context(),
                        col_values(domain.trace_roots_of_unity@),
                        domain.trace_primitive_root@,
                        domain.lde_roots_of_unity_coset@[j]@,
                        self.air.degree_bound_spec(),
                        alpha_and_beta_boundary_coefficients@,
                        alpha_and_beta_transition_coefficients@,
                    )
                },
            decreases n - i,
        {
            let frame = read_frame(lde_trace, i, domain.blowup_factor, &ctx.transition_offsets, n);
            let z = &domain.lde_roots_of_unity_coset[i];
            proof {
                assert(z.wf());
            }
            let value = evaluate_composition_at(
                self.air,
                &self.boundary_constraints,
                &frame,
                rap_challenges,
                z,
                domain,
                alpha_and_beta_boundary_coefficients,
                alpha_and_beta_transition_coefficients,
            );
            match value {
                None => {
                    return None;
                },
                Some(v) => {
                    out.push(v);
                },
            }
            i = i + 1;
        }
        Some(out)
    }
}

/// `Σ_{i<count} evalsᵢ · densᵢ · (αᵢ·adjsᵢ + βᵢ)`.
pub open spec fn weighted_sum(
    evals: Seq<int>,
    dens: Seq<int>,
    adjs: Seq<int>,
    coeffs: Seq<(Felt, Felt)>,
    count: nat,
) -> int
    decreases count,
{
    if count == 0 {
        0
    } else {
        let i = count - 1;
        add_mod(
            weighted_sum(evals, dens, adjs, coeffs, (count - 1) as nat),
            mul_mod(mul_mod(evals[i], dens[i]), add_mod(mul_mod(coeffs[i].0@, adjs[i]), coeffs[i].1@)),
        )
    }
}

} // verus!
