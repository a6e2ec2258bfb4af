use vstd::prelude::*;

use crate::air::{AIR, Frame, TraceTable, all_wf, col_values};
use crate::context::is_pow2;
use crate::domain::{Domain, two_pow};
use crate::evaluator::{ConstraintEvaluator, lde_fits};
use crate::field::{Felt, u64_be_bytes};
use crate::fri::{fri_commit_phase, fri_query_phase};
use crate::grinding::generate_nonce;
use crate::merkle::{MerkleTree, leaf_bytes};
use crate::poly::{evaluate, interpolate_offset_fft, poly_eval, power_mod};
use crate::field::{mul_mod, modulus, primitive_root};
use crate::stark_verifier::{
    DeepPolynomialOpening, StarkProof, after_ood_state, before_seed_state, before_z_state, coeffs_state, domain_for,
    fold_state, lemma_first_outside_unique, pairs_wf, proof_wf, rap_state, reconstruct_deep_composition_poly_evaluation,
    rows_bytes, rows_fit, term_coeffs_state, z_found, z_index,
};
use crate::fri::layer_roots;
use crate::grinding::nonce_is_valid;
use crate::merkle::path_view;
use crate::transcript::{challenge_of, first_outside, nth_draw};
use crate::transcript::{StarkTranscript, batch_sample_challenges, sample_z_ood, transcript_to_field};

verus! {

/// Why a proof could not be made.
#[derive(Clone, Copy, Debug, PartialEq, Eq, Structural)]
pub enum ProvingError {
    /// The trace or the AIR's parameters do not fit together, or a drawn
    /// challenge made a quotient undefined.
    WrongParameter,
    /// A trace column is empty.
    InterpolationFailure,
    /// The composition polynomial has more coefficients than its two halves
    /// can hold under the degree bound.
    CompositionDegreeMismatch,
}

/// The trace polynomials: each column interpolated on the trace roots of unity.
fn interpolate_columns(cols: &Vec<Vec<Felt>>, order: u32) -> (r: Vec<Vec<Felt>>)
    requires
        order < 64,
        forall|j: int| 0 <= j < cols.len() ==> (#[trigger] cols@[j]).len() == two_pow(order as nat)
            && all_wf(cols@[j]@),
    ensures
        r.len() == cols.len(),
        forall|j: int| 0 <= j < r.len() ==> all_wf((#[trigger] r@[j])@),
        forall|j: int, i: int| 0 <= j < r.len() && 0 <= i < two_pow(order as nat) ==>
            poly_eval(col_values((#[trigger] r@[j])@), mul_mod(1, power_mod(primitive_root(order as nat), i as nat)))
                == (#[trigger] cols@[j]@[i])@,
{
    let one = Felt::one();
    let mut r: Vec<Vec<Felt>> = Vec::new();
    let mut j: usize = 0;
    while j < cols.len()
        invariant
            j <= cols.len(),
            order < 64,
            one@ == 1,
            one.wf(),
            forall|t: int| 0 <= t < cols.len() ==> (#[trigger] cols@[t]).len() == two_pow(order as nat)
                && all_wf(cols@[t]@),
            r.len() == j,
            forall|t: int| 0 <= t < j ==> all_wf((#[trigger] r@[t])@),
            forall|t: int, i: int| 0 <= t < j && 0 <= i < two_pow(order as nat) ==>
                poly_eval(col_values((#[trigger] r@[t])@), mul_mod(1, power_mod(primitive_root(order as nat), i as nat)))
                    == (#[trigger] cols@[t]@[i])@,
        decreases cols.len() - j,
    {
        r.push(interpolate_offset_fft(&cols[j], &one, order));
        j = j + 1;
    }
    r
}

/// Each polynomial evaluated at every point.
fn evaluate_columns(polys: &Vec<Vec<Felt>>, points: &Vec<Felt>) -> (r: Vec<Vec<Felt>>)
    requires
        forall|j: int| 0 <= j < polys.len() ==> all_wf((#[trigger] polys@[j])@),
        all_wf(points@),
    ensures
        r.len() == polys.len(),
        forall|j: int| 0 <= j < r.len() ==> (#[trigger] r@[j]).len() == points.len() && all_wf(r@[j]@),
{
    let mut r: Vec<Vec<Felt>> = Vec::new();
    let mut j: usize = 0;
    while j < polys.len()
        invariant
            j <= polys.len(),
            forall|t: int| 0 <= t < polys.len() ==> all_wf((#[trigger] polys@[t])@),
            all_wf(points@),
            r.len() == j,
            forall|t: int| 0 <= t < j ==> (#[trigger] r@[t]).len() == points.len() && all_wf(r@[t]@),
        decreases polys.len() - j,
    {
        let mut col: Vec<Felt> = Vec::new();
        let mut i: usize = 0;
        while i < points.len()
            invariant
                i <= points.len(),
                j < polys.len(),
                forall|t: int| 0 <= t < polys.len() ==> all_wf((#[trigger] polys@[t])@),
                all_wf(points@),
                col.len() == i,
                all_wf(col@),
            decreases points.len() - i,
        {
            proof {
                assert(all_wf(polys@[j as int]@));
            }
            col.push(evaluate(&polys[j], &points[i]));
            i = i + 1;
        }
        r.push(col);
        j = j + 1;
    }
    r
}

/// Row `i` of columns of length `n`.
fn row_of(cols: &Vec<Vec<Felt>>, i: usize, n: usize) -> (r: Vec<Felt>)
    requires
        i < n,
        forall|j: int| 0 <= j < cols.len() ==> (#[trigger] cols@[j]).len() == n && all_wf(cols@[j]@),
    ensures
        r.len() == cols.len(),
        all_wf(r@),
        forall|j: int| 0 <= j < cols.len() ==> (#[trigger] r@[j]) == cols@[j]@[i as int],
{
    let mut r: Vec<Felt> = Vec::new();
    let mut j: usize = 0;
    while j < cols.len()
        invariant
            j <= cols.len(),
            i < n,
            forall|t: int| 0 <= t < cols.len() ==> (#[trigger] cols@[t]).len() == n && all_wf(cols@[t]@),
            r.len() == j,
            all_wf(r@),
            forall|t: int| 0 <= t < j ==> (#[trigger] r@[t]) == cols@[t]@[i as int],
        decreases cols.len() - j,
    {
        proof {
            assert(all_wf(cols@[j as int]@));
        }
        r.push(cols[j][i]);
        j = j + 1;
    }
    r
}

/// All rows of columns of length `n`.
fn rows_of(cols: &Vec<Vec<Felt>>, n: usize) -> (r: Vec<Vec<Felt>>)
    requires
        forall|j: int| 0 <= j < cols.len() ==> (#[trigger] cols@[j]).len() == n && all_wf(cols@[j]@),
    ensures
        r.len() == n,
        forall|i: int| 0 <= i < n ==> (#[trigger] r@[i]).len() == cols.len() && all_wf(r@[i]@),
{
    let mut r: Vec<Vec<Felt>> = Vec::new();
    let mut i: usize = 0;
    while i < n
        invariant
            i <= n,
            forall|j: int| 0 <= j < cols.len() ==> (#[trigger] cols@[j]).len() == n && all_wf(cols@[j]@),
            r.len() == i,
            forall|t: int| 0 <= t < i ==> (#[trigger] r@[t]).len() == cols.len() && all_wf(r@[t]@),
        decreases n - i,
    {
        r.push(row_of(cols, i, n));
        i = i + 1;
    }
    r
}

/// The commitment to rows: the root of their Merkle tree.
fn commit_rows(rows: &Vec<Vec<Felt>>) -> (r: Option<MerkleTree>)
    requires
        rows.len() <= usize::MAX / 8,
    ensures
        r is Some <==> rows.len() > 0,
        r matches Some(t) ==> t.wf(),
{
    MerkleTree::build(rows)
}

/// Whether a table has `columns` columns of `n` reduced elements.
fn table_fits(t: &TraceTable, columns: usize, n: usize) -> (r: bool)
    ensures
        r == (t.cols.len() == columns && forall|j: int| 0 <= j < t.cols.len() ==>
            (#[trigger] t.cols@[j]).len() == n && all_wf(t.cols@[j]@)),
{
    if t.cols.len() != columns {
        return false;
    }
    let mut j: usize = 0;
    while j < t.cols.len()
        invariant
            j <= t.cols.len(),
            forall|k: int| 0 <= k < j ==> (#[trigger] t.cols@[k]).len() == n && all_wf(t.cols@[k]@),
        decreases t.cols.len() - j,
    {
        if t.cols[j].len() != n || !crate::stark_verifier::all_reduced(&t.cols[j]) {
            return false;
        }
        j = j + 1;
    }
    true
}

/// Appends every element of every row of a frame, row by row.
fn append_frame(transcript: &mut StarkTranscript, rows: &Vec<Vec<Felt>>)
    ensures
        final(transcript).absorbed@ == old(transcript).absorbed@ + rows_bytes(rows@),
{
    let ghost a = transcript.absorbed@;
    let mut k: usize = 0;
    while k < rows.len()
        invariant
            k <= rows.len(),
            a == old(transcript).absorbed@,
            transcript.absorbed@ == a + rows_bytes(rows@.take(k as int)),
        decreases rows.len() - k,
    {
        let row = &rows[k];
        let ghost before = transcript.absorbed@;
        let mut c: usize = 0;
        while c < row.len()
            invariant
                c <= row.len(),
                transcript.absorbed@ == before + leaf_bytes(row@.take(c as int)),
            decreases row.len() - c,
        {
            proof {
                assert(row@.take(c as int + 1).drop_last() =~= row@.take(c as int));
            }
            transcript.append(row[c].to_bytes_be().as_slice());
            c = c + 1;
            proof {
                assert(transcript.absorbed@ =~= before + leaf_bytes(row@.take(c as int)));
            }
        }
        proof {
            assert(row@.take(row.len() as int) =~= row@);
            assert(rows@.take(k as int + 1).drop_last() =~= rows@.take(k as int));
        }
        k = k + 1;
        proof {
            assert(transcript.absorbed@ =~= a + rows_bytes(rows@.take(k as int)));
        }
    }
    proof {
        assert(rows@.take(rows.len() as int) =~= rows@);
    }
}

/// Every polynomial at `z·g^k` for each offset `k`: row `k` of the frame.
fn evaluate_frame(polys: &Vec<Vec<Felt>>, z: &Felt, g: &Felt, offsets: &Vec<usize>) -> (r: Vec<Vec<Felt>>)
    requires
        z.wf(),
        g.wf(),
        forall|t: int| 0 <= t < polys.len() ==> all_wf((#[trigger] polys@[t])@),
    ensures
        r.len() == offsets.len(),
        rows_fit(r@, polys.len() as nat),
        forall|k: int, j: int| 0 <= k < offsets.len() && 0 <= j < polys.len() ==>
            (#[trigger] r@[k]@[j])@ == poly_eval(col_values(polys@[j]@),
                mul_mod(z@, vstd::arithmetic::power::pow(g@, offsets@[k] as nat) % modulus())),
{
    let mut rows: Vec<Vec<Felt>> = Vec::new();
    let mut k: usize = 0;
    while k < offsets.len()
        invariant
            k <= offsets.len(),
            z.wf(),
            g.wf(),
            forall|t: int| 0 <= t < polys.len() ==> all_wf((#[trigger] polys@[t])@),
            rows.len() == k,
            rows_fit(rows@, polys.len() as nat),
            forall|kk: int, j: int| 0 <= kk < k && 0 <= j < polys.len() ==>
                (#[trigger] rows@[kk]@[j])@ == poly_eval(col_values(polys@[j]@),
                    mul_mod(z@, vstd::arithmetic::power::pow(g@, offsets@[kk] as nat) % modulus())),
        decreases offsets.len() - k,
    {
        let point = z.mul(&g.pow(offsets[k] as u64));
        let mut row: Vec<Felt> = Vec::new();
        let mut c: usize = 0;
        while c < polys.len()
            invariant
                c <= polys.len(),
                point.wf(),
                point@ == mul_mod(z@, vstd::arithmetic::power::pow(g@, offsets@[k as int] as nat) % modulus()),
                forall|t: int| 0 <= t < polys.len() ==> all_wf((#[trigger] polys@[t])@),
                row.len() == c,
                all_wf(row@),
                forall|cc: int| 0 <= cc < c ==> (#[trigger] row@[cc])@ == poly_eval(col_values(polys@[cc]@), point@),
            decreases polys.len() - c,
        {
            proof {
                assert(all_wf(polys@[c as int]@));
            }
            row.push(evaluate(&polys[c], &point));
            c = c + 1;
        }
        rows.push(row);
        k = k + 1;
    }
    rows
}

/// `polys` are the trace polynomials: the main ones interpolate the main
/// columns on the `2^ro` trace roots, and the proof's out-of-domain frame holds
/// every polynomial at `z·gᵏ` for each offset `k`, `g` the trace roots' generator.
pub open spec fn ood_from_trace_polys<A: AIR>(
    air: &A,
    main_trace: &TraceTable,
    proof: &StarkProof,
    polys: Seq<Seq<int>>,
    z: int,
    ro: nat,
) -> bool {
    let ctx = air.air_context();
    &&& two_pow(ro) == ctx.trace_length
    &&& polys.len() == ctx.trace_columns
    &&& forall|j: int, i: int| 0 <= j < main_trace.cols.len() && 0 <= i < ctx.trace_length ==>
            poly_eval(#[trigger] polys[j], mul_mod(1, power_mod(primitive_root(ro), i as nat)))
                == (#[trigger] main_trace.cols@[j]@[i])@
    &&& forall|k: int, j: int| 0 <= k < ctx.transition_offsets.len() && 0 <= j < ctx.trace_columns ==>
            (#[trigger] proof.trace_ood_frame_evaluations.rows@[k]@[j])@ == poly_eval(polys[j], mul_mod(
                z,
                vstd::arithmetic::power::pow(primitive_root(ro), ctx.transition_offsets@[k] as nat) % modulus(),
            ))
}

/// Makes a proof that `main_trace` satisfies `air`: commits to the trace's
/// extension (and the auxiliary columns the AIR builds), to the composition
/// polynomial's two halves, evaluates everything at the out-of-domain point,
/// runs FRI on the Deep composition polynomial, grinds a nonce and opens the
/// queries. Every challenge comes from one transcript, in the order the
/// verifier replays.
#[verifier::rlimit(100)]
#[verifier::spinoff_prover]
pub fn prove<A: AIR>(main_trace: &TraceTable, air: &A) -> (r: Result<StarkProof, ProvingError>)
    requires
        air.air_wf(),
        air.air_context().wf(),
        air.air_context().transition_offsets.len() >= 1,
        is_pow2(air.air_context().options.blowup_factor as nat),
        air.air_context().trace_length * air.air_context().options.blowup_factor <= usize::MAX / 8,
    ensures
        r matches Ok(proof) ==> proof_wf(air, &proof),
        main_trace.cols.len() + air.num_aux_spec() != air.air_context().trace_columns
            ==> r == Err::<StarkProof, ProvingError>(ProvingError::WrongParameter),
        main_trace.cols.len() + air.num_aux_spec() == air.air_context().trace_columns
            && main_trace.cols.len() > 0
            && (exists|j: int| 0 <= j < main_trace.cols.len() && (#[trigger] main_trace.cols@[j]).len() == 0)
            ==> r == Err::<StarkProof, ProvingError>(ProvingError::InterpolationFailure),
        r == Err::<StarkProof, ProvingError>(ProvingError::InterpolationFailure)
            ==> exists|j: int| 0 <= j < main_trace.cols.len() && (#[trigger] main_trace.cols@[j]).len() == 0,
        r matches Ok(proof) ==> exists|d: Domain| #[trigger] domain_for(air, &d)
            && z_found(air, &proof, &d, Seq::empty())
            && nonce_is_valid(
                challenge_of(before_seed_state(air, &proof, &d, Seq::empty())),
                proof.nonce,
                air.air_context().options.grinding_factor,
            ),
{
    let ctx = air.context();
    let n = ctx.trace_length;
    let num_aux = air.number_auxiliary_rap_columns();
    let num_main = ctx.trace_columns - num_aux;
    if main_trace.cols.len() != num_main {
        return Err(ProvingError::WrongParameter);
    }
    if num_main == 0 {
        return Err(ProvingError::WrongParameter);
    }
    let mut c: usize = 0;
    while c < main_trace.cols.len()
        invariant
            c <= main_trace.cols.len(),
            main_trace.cols.len() == num_main,
            num_main + air.num_aux_spec() == air.air_context().trace_columns,
            forall|k: int| 0 <= k < c ==> (#[trigger] main_trace.cols@[k]).len() > 0,
        decreases main_trace.cols.len() - c,
    {
        if main_trace.cols[c].len() == 0 {
            return Err(ProvingError::InterpolationFailure);
        }
        c = c + 1;
    }
    if !table_fits(main_trace, num_main, n) || ctx.options.coset_offset == 0 {
        return Err(ProvingError::WrongParameter);
    }
    let domain = Domain::new(ctx);
    let big_n = domain.lde_roots_of_unity_coset.len();
    let offset = domain.coset_offset;
    proof {
        assert(big_n >= 1) by (nonlinear_arith)
            requires big_n == n * ctx.options.blowup_factor, n >= 1, ctx.options.blowup_factor >= 1;
        crate::domain::lemma_two_pow_pos(domain.lde_root_order as nat);
        crate::domain::lemma_is_pow2_two_pow(domain.lde_root_order as nat);
    }
    let mut transcript = StarkTranscript::new();

    // Round 1: the main trace and, after the challenges, the auxiliary one.
    let main_polys = interpolate_columns(&main_trace.cols, domain.root_order);
    let main_lde = evaluate_columns(&main_polys, &domain.lde_roots_of_unity_coset);
    let main_rows = rows_of(&main_lde, big_n);
    let main_tree = match commit_rows(&main_rows) {
        Some(t) => t,
        None => {
            proof {
                assert(false);
            }
            return Err(ProvingError::InterpolationFailure);
        },
    };
    let main_root = main_tree.root();
    transcript.append(main_root.as_slice());
    proof {
        assert(transcript.absorbed@ =~= Seq::<u8>::empty() + main_root@);
    }
    let rap = air.build_rap_challenges(&mut transcript);
    proof {
        assert(main_trace.cols@[0].len() == n);
        assert(main_trace.rows() == n);
        assert(main_trace.wf());
    }
    let aux_trace = match air.build_auxiliary_trace(main_trace, &rap) {
        Some(t) => t,
        None => {
            return Err(ProvingError::WrongParameter);
        },
    };
    let aux_polys = interpolate_columns(&aux_trace.cols, domain.root_order);
    let aux_lde = evaluate_columns(&aux_polys, &domain.lde_roots_of_unity_coset);
    let aux_rows = rows_of(&aux_lde, big_n);
    let mut roots: Vec<[u8; 32]> = vec![main_root];
    let mut aux_tree_opt: Option<MerkleTree> = None;
    if num_aux > 0 {
        let aux_tree = match commit_rows(&aux_rows) {
            Some(t) => t,
            None => {
                proof {
                    assert(false);
                }
                return Err(ProvingError::InterpolationFailure);
            },
        };
        let aux_root = aux_tree.root();
        transcript.append(aux_root.as_slice());
        roots.push(aux_root);
        aux_tree_opt = Some(aux_tree);
    }
    let ghost a3 = transcript.absorbed@;
    let ghost mp = main_polys@;
    let mut polys = main_polys;
    let mut lde_cols = main_lde;
    let mut j: usize = 0;
    while j < aux_polys.len()
        invariant
            j <= aux_polys.len(),
            aux_polys.len() == aux_lde.len(),
            forall|t: int| 0 <= t < aux_polys.len() ==> all_wf((#[trigger] aux_polys@[t])@),
            forall|t: int| 0 <= t < aux_lde.len() ==> (#[trigger] aux_lde@[t]).len() == big_n && all_wf(aux_lde@[t]@),
            polys.len() == lde_cols.len(),
            polys.len() == num_main + j,
            forall|t: int| 0 <= t < num_main ==> (#[trigger] polys@[t]) == mp[t],
            forall|t: int| 0 <= t < polys.len() ==> all_wf((#[trigger] polys@[t])@),
            forall|t: int| 0 <= t < lde_cols.len() ==> (#[trigger] lde_cols@[t]).len() == big_n && all_wf(lde_cols@[t]@),
        decreases aux_polys.len() - j,
    {
        polys.push(aux_polys[j].clone());
        lde_cols.push(aux_lde[j].clone());
        j = j + 1;
    }
    let lde_trace = TraceTable { cols: lde_cols };

    // Round 2: the composition polynomial.
    let bc_alphas = batch_sample_challenges(ctx.trace_columns, &mut transcript);
    let bc_betas = batch_sample_challenges(ctx.trace_columns, &mut transcript);
    let tc_alphas = batch_sample_challenges(ctx.num_transition_constraints, &mut transcript);
    let tc_betas = batch_sample_challenges(ctx.num_transition_constraints, &mut transcript);
    let boundary_coeffs = crate::stark_verifier::zip_pairs(&bc_alphas, &bc_betas);
    let transition_coeffs = crate::stark_verifier::zip_pairs(&tc_alphas, &tc_betas);
    let evaluator = ConstraintEvaluator::new(air, &domain.trace_primitive_root, &rap);
    let h_evals = match evaluator.evaluate(&lde_trace, &domain, &transition_coeffs, &boundary_coeffs, &rap) {
        Some(v) => v,
        None => {
            return Err(ProvingError::WrongParameter);
        },
    };
    let h = interpolate_offset_fft(&h_evals, &offset, domain.lde_root_order);
    let bound = air.composition_poly_degree_bound();
    if h.len() as u128 > 2 * (bound as u128) {
        return Err(ProvingError::CompositionDegreeMismatch);
    }
    let mut h1: Vec<Felt> = Vec::new();
    let mut h2: Vec<Felt> = Vec::new();
    let mut k: usize = 0;
    while k < h.len()
        invariant
            k <= h.len(),
            all_wf(h@),
            all_wf(h1@),
            all_wf(h2@),
        decreases h.len() - k,
    {
        if k % 2 == 0 {
            h1.push(h[k]);
        } else {
            h2.push(h[k]);
        }
        k = k + 1;
    }
    let halves = vec![h1.clone(), h2.clone()];
    let comp_lde = evaluate_columns(&halves, &domain.lde_roots_of_unity_coset);
    let comp_rows = rows_of(&comp_lde, big_n);
    let comp_tree = match commit_rows(&comp_rows) {
        Some(t) => t,
        None => {
            proof {
                assert(false);
            }
            return Err(ProvingError::InterpolationFailure);
        },
    };
    let composition_poly_root = comp_tree.root();
    transcript.append(composition_poly_root.as_slice());
    let ghost a8 = transcript.absorbed@;
    proof {
        assert(a8 == coeffs_state(a3, ctx.trace_columns as nat, ctx.num_transition_constraints as nat)
            + composition_poly_root@);
    }

    // Round 3: the out-of-domain point.
    let z = match sample_z_ood(&domain.lde_roots_of_unity_coset, &domain.trace_roots_of_unity, &mut transcript) {
        Some(z) => z,
        None => {
            return Err(ProvingError::WrongParameter);
        },
    };
    let ghost zk = choose|k: nat| #[trigger] first_outside(a8, domain.lde_roots_of_unity_coset@, domain.trace_roots_of_unity@, k)
        && z == crate::transcript::draw_felt(nth_draw(a8, k)) && transcript.absorbed@ == nth_draw(a8, k);
    proof {
        lemma_first_outside_unique(a8, domain.lde_roots_of_unity_coset@, domain.trace_roots_of_unity@, zk,
            z_index(a8, domain.lde_roots_of_unity_coset@, domain.trace_roots_of_unity@));
    }
    let z2 = z.square();
    let h1_z2 = evaluate(&h1, &z2);
    let h2_z2 = evaluate(&h2, &z2);
    let g = domain.trace_primitive_root;
    let offsets = &ctx.transition_offsets;
    let ood_rows = evaluate_frame(&polys, &z, &g, offsets);
    transcript.append(h1_z2.to_bytes_be().as_slice());
    transcript.append(h2_z2.to_bytes_be().as_slice());
    append_frame(&mut transcript, &ood_rows);
    let ghost a10 = transcript.absorbed@;

    // Round 4: the Deep composition polynomial and FRI.
    let gamma_even = transcript_to_field(&mut transcript);
    let gamma_odd = transcript_to_field(&mut transcript);
    let ghost a12 = transcript.absorbed@;
    let mut trace_term_coeffs: Vec<Vec<Felt>> = Vec::new();
    c = 0;
    while c < ctx.trace_columns
        invariant
            transcript.absorbed@ == term_coeffs_state(a12, offsets.len() as nat, c as nat),
            c <= ctx.trace_columns,
            trace_term_coeffs.len() == c,
            rows_fit(trace_term_coeffs@, offsets.len() as nat),
        decreases ctx.trace_columns - c,
    {
        trace_term_coeffs.push(batch_sample_challenges(offsets.len(), &mut transcript));
        c = c + 1;
    }
    let mut deep_evals: Vec<Felt> = Vec::new();
    let mut i: usize = 0;
    while i < big_n
        invariant
            i <= big_n,
            big_n == domain.lde_roots_of_unity_coset.len(),
            domain.wf(),
            z.wf(),
            z2.wf(),
            h1_z2.wf(),
            h2_z2.wf(),
            gamma_even.wf(),
            gamma_odd.wf(),
            lde_trace.cols.len() == ctx.trace_columns,
            forall|t: int| 0 <= t < lde_trace.cols.len() ==> (#[trigger] lde_trace.cols@[t]).len() == big_n
                && all_wf(lde_trace.cols@[t]@),
            comp_lde.len() == 2,
            forall|t: int| 0 <= t < comp_lde.len() ==> (#[trigger] comp_lde@[t]).len() == big_n && all_wf(comp_lde@[t]@),
            ood_rows.len() == offsets.len(),
            rows_fit(ood_rows@, ctx.trace_columns as nat),
            trace_term_coeffs.len() == ctx.trace_columns,
            rows_fit(trace_term_coeffs@, offsets.len() as nat),
            deep_evals.len() == i,
            all_wf(deep_evals@),
            forall|k: int| 0 <= k < main_trace.cols.len() ==> (#[trigger] main_trace.cols@[k]).len() > 0,
            g.wf(),
            *offsets == ctx.transition_offsets,
        decreases big_n - i,
    {
        let row = row_of(&lde_trace.cols, i, big_n);
        proof {
            assert(comp_lde@[0].len() == big_n && all_wf(comp_lde@[0]@));
            assert(comp_lde@[1].len() == big_n && all_wf(comp_lde@[1]@));
            assert(comp_lde@[0]@[i as int].wf());
            assert(comp_lde@[1]@[i as int].wf());
            assert(domain.lde_roots_of_unity_coset@[i as int].wf());
            assert(row.len() == ctx.trace_columns);
            assert(rows_fit(ood_rows@, row.len() as nat));
        }
        let v = reconstruct_deep_composition_poly_evaluation(
            &domain.lde_roots_of_unity_coset[i],
            &z,
            &g,
            offsets,
            &row,
            &ood_rows,
            &trace_term_coeffs,
            &comp_lde[0][i],
            &h1_z2,
            &comp_lde[1][i],
            &h2_z2,
            &gamma_even,
            &gamma_odd,
        );
        match v {
            Some(v) => {
                deep_evals.push(v);
            },
            None => {
                return Err(ProvingError::WrongParameter);
            },
        }
        i = i + 1;
    }
    let deep_poly = interpolate_offset_fft(&deep_evals, &offset, domain.lde_root_order);
    let number_layers: usize = if domain.lde_root_order == 0 { 1 } else { domain.lde_root_order as usize };
    proof {
        if domain.lde_root_order > 0 {
            crate::domain::lemma_two_pow_grows((number_layers - 1) as nat, number_layers as nat);
        }
    }
    let ghost a13 = transcript.absorbed@;
    let (fri_last_value, fri_layers) = fri_commit_phase(number_layers, deep_poly, &mut transcript, &offset, big_n);
    let mut fri_layers_merkle_roots: Vec<[u8; 32]> = Vec::new();
    let mut t: usize = 0;
    while t < fri_layers.len()
        invariant
            t <= fri_layers.len(),
            forall|k: int| 0 <= k < fri_layers.len() ==> (#[trigger] fri_layers@[k]).wf(),
            fri_layers_merkle_roots.len() == t,
            forall|u: int| 0 <= u < t ==> (#[trigger] fri_layers_merkle_roots@[u])@ == fri_layers@[u].merkle_tree.root_spec(),
        decreases fri_layers.len() - t,
    {
        proof {
            assert(fri_layers@[t as int].wf());
        }
        fri_layers_merkle_roots.push(fri_layers[t].merkle_tree.root());
        t = t + 1;
    }

    // Grinding, then the queries.
    let ghost a15 = transcript.absorbed@;
    let seed = transcript.challenge();
    let nonce = match generate_nonce(&seed, ctx.options.grinding_factor) {
        Some(nonce) => nonce,
        None => {
            return Err(ProvingError::WrongParameter);
        },
    };
    let nonce_bytes = crate::stark_verifier::nonce_be_bytes(nonce);
    transcript.append(nonce_bytes.as_slice());
    let q = ctx.options.fri_number_of_queries;
    let (query_list, iotas) = fri_query_phase(q, big_n, &fri_layers, &mut transcript);
    let mut deep_poly_openings: Vec<DeepPolynomialOpening> = Vec::new();
    let mut s: usize = 0;
    while s < iotas.len()
        invariant
            s <= iotas.len(),
            forall|u: int| 0 <= u < iotas.len() ==> (#[trigger] iotas@[u]) < big_n,
            big_n == domain.lde_roots_of_unity_coset.len(),
            lde_trace.cols.len() == ctx.trace_columns,
            forall|u: int| 0 <= u < lde_trace.cols.len() ==> (#[trigger] lde_trace.cols@[u]).len() == big_n
                && all_wf(lde_trace.cols@[u]@),
            comp_lde.len() == 2,
            forall|u: int| 0 <= u < comp_lde.len() ==> (#[trigger] comp_lde@[u]).len() == big_n && all_wf(comp_lde@[u]@),
            main_tree.wf(),
            comp_tree.wf(),
            aux_tree_opt matches Some(at) ==> at.wf(),
            deep_poly_openings.len() == s,
            forall|u: int| 0 <= u < s ==> {
                let op = #[trigger] deep_poly_openings@[u];
                op.lde_composition_poly_even_evaluation.wf() && op.lde_composition_poly_odd_evaluation.wf()
                    && all_wf(op.lde_trace_evaluations@)
            },
        decreases iotas.len() - s,
    {
        let iota = iotas[s];
        let row = row_of(&lde_trace.cols, iota, big_n);
        let mut trace_proofs: Vec<Vec<[u8; 32]>> = Vec::new();
        match main_tree.get_proof_by_pos(iota) {
            Some(p) => trace_proofs.push(p),
            None => trace_proofs.push(Vec::new()),
        }
        match &aux_tree_opt {
            Some(aux_tree) => {
                match aux_tree.get_proof_by_pos(iota) {
                    Some(p) => trace_proofs.push(p),
                    None => trace_proofs.push(Vec::new()),
                }
            },
            None => {},
        }
        let comp_proof = match comp_tree.get_proof_by_pos(iota) {
            Some(p) => p,
            None => Vec::new(),
        };
        proof {
            assert(comp_lde@[0].len() == big_n && all_wf(comp_lde@[0]@));
            assert(comp_lde@[1].len() == big_n && all_wf(comp_lde@[1]@));
        }
        deep_poly_openings.push(DeepPolynomialOpening {
            lde_composition_poly_proof: comp_proof,
            lde_composition_poly_even_evaluation: comp_lde[0][iota],
            lde_composition_poly_odd_evaluation: comp_lde[1][iota],
            lde_trace_merkle_proofs: trace_proofs,
            lde_trace_evaluations: row,
        });
        s = s + 1;
    }
    let proof = StarkProof {
        trace_length: n,
        lde_trace_merkle_roots: roots,
        trace_ood_frame_evaluations: Frame { rows: ood_rows },
        composition_poly_root,
        composition_poly_even_ood_evaluation: h1_z2,
        composition_poly_odd_ood_evaluation: h2_z2,
        fri_layers_merkle_roots,
        fri_last_value,
        query_list,
        deep_poly_openings,
        nonce,
    };
    proof {
        assert forall|u: int| 0 <= u < proof.query_list.len() implies
            all_wf((#[trigger] proof.query_list@[u]).layers_evaluations_sym@) by {
            let d = proof.query_list@[u];
            assert(crate::fri::decommitment_ok(d, fri_layers@, iotas@[u] as nat));
            assert forall|k: int| 0 <= k < d.layers_evaluations_sym.len() implies (#[trigger] d.layers_evaluations_sym@[k]).wf() by {
                let layer = fri_layers@[k];
                assert(layer.wf());
                let sym = crate::fri::layer_sym_index(iotas@[u] as nat, layer.domain_size as nat);
                crate::fibonacci_rap::lemma_next_pow2(layer.domain_size as nat);
                assert(sym < layer.domain_size);
                assert(d.layers_evaluations_sym@[k] == layer.evaluation@[sym as int]);
            }
        }
        let e = Seq::<u8>::empty();
        assert(proof.lde_trace_merkle_roots@[0] == main_root);
        assert(rap_state(air, &proof, e).1 == a3);
        assert(before_z_state(air, &proof, e) == a8);
        assert(z_found(air, &proof, &domain, e));
        assert(after_ood_state(air, &proof, &domain, e) == a10);
        assert(path_view(proof.fri_layers_merkle_roots@) =~= layer_roots(fri_layers@));
        assert(before_seed_state(air, &proof, &domain, e) == a15);
        assert(domain_for(air, &domain));
        let ps = Seq::new(polys.len() as nat, |j: int| col_values(polys@[j]@));
        assert forall|j: int, i: int| 0 <= j < main_trace.cols.len() && 0 <= i < air.air_context().trace_length implies
            poly_eval(#[trigger] ps[j], mul_mod(1, power_mod(primitive_root(domain.root_order as nat), i as nat)))
                == (#[trigger] main_trace.cols@[j]@[i])@ by {
            assert(polys@[j] == mp[j]);
        }
        assert(ood_from_trace_polys(air, main_trace, &proof, ps, z@, domain.root_order as nat));
    }
    Ok(proof)
}

} // verus!
