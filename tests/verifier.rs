use lambdaworks_stark::air::{AIR, FibonacciAIR, Frame, TraceTable};
use lambdaworks_stark::context::{AirContext, ProofOptions};
use lambdaworks_stark::domain::Domain;
use lambdaworks_stark::evaluator::{read_frame, ConstraintEvaluator};
use lambdaworks_stark::field::Felt;
use lambdaworks_stark::fri::FriDecommitment;
use lambdaworks_stark::stark_verifier::{
    check_proof_shape, evaluate_composition_at, reconstruct_deep_composition_poly_evaluation,
    step_2_verify_claimed_composition_polynomial, verify, Challenges, StarkProof,
};

fn fe(v: u64) -> Felt {
    Felt::from_u64(v)
}

fn fib_context() -> AirContext {
    AirContext {
        options: ProofOptions { blowup_factor: 2, fri_number_of_queries: 1, coset_offset: 3, grinding_factor: 0 },
        trace_length: 8,
        trace_columns: 1,
        transition_degrees: vec![1],
        transition_exemptions: vec![2],
        transition_offsets: vec![0, 1, 2],
        num_transition_constraints: 1,
    }
}

fn challenges() -> Challenges<()> {
    Challenges {
        z: fe(12345),
        boundary_coeffs: vec![(fe(2), fe(3))],
        transition_coeffs: vec![(fe(5), fe(7))],
        trace_term_coeffs: vec![vec![fe(1), fe(2), fe(3)]],
        gamma_even: fe(4),
        gamma_odd: fe(6),
        zetas: vec![],
        iotas: vec![0],
        rap_challenges: (),
        grinding_seed: [0u8; 32],
    }
}

fn proof_with(frame: Frame, h1: Felt, h2: Felt) -> StarkProof {
    StarkProof {
        trace_length: 8,
        lde_trace_merkle_roots: vec![[0u8; 32]],
        trace_ood_frame_evaluations: frame,
        composition_poly_root: [0u8; 32],
        composition_poly_even_ood_evaluation: h1,
        composition_poly_odd_ood_evaluation: h2,
        fri_layers_merkle_roots: vec![],
        fri_last_value: fe(0),
        query_list: vec![FriDecommitment { layers_evaluations_sym: vec![], layers_auth_paths_sym: vec![] }],
        deep_poly_openings: vec![],
        nonce: 0,
    }
}

fn ood_frame() -> Frame {
    Frame { rows: vec![vec![fe(17)], vec![fe(29)], vec![fe(41)]] }
}

#[test]
fn composition_identity_holds_for_the_recomputed_value() {
    let air = FibonacciAIR::from_context(fib_context());
    let domain = Domain::new(air.context());
    let c = challenges();
    let frame = ood_frame();
    let bcs = air.boundary_constraints(&());
    let h = evaluate_composition_at(&air, &bcs, &frame, &(), &c.z, &domain, &c.boundary_coeffs, &c.transition_coeffs)
        .unwrap();
    // H₁(z²) + z·H₂(z²) with H₂ = 1 and H₁ = H(z) − z.
    let proof = proof_with(frame, h.sub(&c.z), fe(1));
    assert!(step_2_verify_claimed_composition_polynomial(&air, &proof, &domain, &c));
}

#[test]
fn incrementing_an_ood_trace_value_rejects() {
    let air = FibonacciAIR::from_context(fib_context());
    let domain = Domain::new(air.context());
    let c = challenges();
    let bcs = air.boundary_constraints(&());
    let h = evaluate_composition_at(&air, &bcs, &ood_frame(), &(), &c.z, &domain, &c.boundary_coeffs, &c.transition_coeffs)
        .unwrap();
    let mut frame = ood_frame();
    frame.rows[1][0] = frame.rows[1][0].add(&fe(1));
    let proof = proof_with(frame, h, fe(0));
    assert!(!step_2_verify_claimed_composition_polynomial(&air, &proof, &domain, &c));
}

#[test]
fn composition_is_undefined_at_a_boundary_row() {
    let air = FibonacciAIR::from_context(fib_context());
    let domain = Domain::new(air.context());
    let c = challenges();
    let bcs = air.boundary_constraints(&());
    // z = 1 is the trace root of row 0, where the boundary zerofier vanishes.
    assert!(evaluate_composition_at(&air, &bcs, &ood_frame(), &(), &fe(1), &domain, &c.boundary_coeffs, &c.transition_coeffs)
        .is_none());
}

#[test]
fn composition_of_a_single_transition_by_hand() {
    // One column, no boundary rows reached: the boundary term of column 0 is
    // (t(z) − I(z)) / Z(z) · (α·z^(D−n) + β) with I through (1, 1), (g, 1), so
    // I(z) = 1, and Z(z) = (z − 1)(z − g).
    let air = FibonacciAIR::from_context(fib_context());
    let domain = Domain::new(air.context());
    let c = challenges();
    let z = c.z;
    let g = domain.trace_primitive_root;
    let bcs = air.boundary_constraints(&());
    let h = evaluate_composition_at(&air, &bcs, &ood_frame(), &(), &z, &domain, &c.boundary_coeffs, &c.transition_coeffs)
        .unwrap();
    let boundary = fe(17).sub(&fe(1)).div(&z.sub(&fe(1)).mul(&z.sub(&g))).mul(&fe(2).mul(&fe(1)).add(&fe(3)));
    // Transition: C = 41 − 29 − 17 = −5, exemption (z − g⁶)(z − g⁷), zerofier z⁸ − 1, adjustment z⁸.
    let cval = fe(41).sub(&fe(29)).sub(&fe(17));
    let ex = z.sub(&g.pow(6)).mul(&z.sub(&g.pow(7)));
    let transition = cval.mul(&ex.div(&z.pow(8).sub(&fe(1)))).mul(&fe(5).mul(&z.pow(8)).add(&fe(7)));
    assert_eq!(h, boundary.add(&transition));
}

#[test]
fn deep_composition_by_hand() {
    let z = fe(10);
    let g = fe(3);
    let offsets = vec![0usize];
    let lde = vec![fe(50)];
    let ood = vec![vec![fe(20)]];
    let coeffs = vec![vec![fe(2)]];
    // υ = 101, z² = 100, g⁰ = 1: divisors 91 and 1.
    let u2 = fe(101);
    let v2 = reconstruct_deep_composition_poly_evaluation(
        &u2, &z, &g, &offsets, &lde, &ood, &coeffs, &fe(7), &fe(5), &fe(9), &fe(4), &fe(11), &fe(13),
    );
    let expected = fe(50).sub(&fe(20)).div(&fe(91)).mul(&fe(2))
        .add(&fe(2).mul(&fe(11)))
        .add(&fe(5).mul(&fe(13)));
    assert_eq!(v2, Some(expected));
}

#[test]
fn deep_composition_undefined_when_upsilon_is_z_squared() {
    let v = reconstruct_deep_composition_poly_evaluation(
        &fe(100), &fe(10), &fe(3), &vec![0usize], &vec![fe(50)], &vec![vec![fe(20)]], &vec![vec![fe(2)]],
        &fe(7), &fe(5), &fe(9), &fe(4), &fe(11), &fe(13),
    );
    assert_eq!(v, None);
}

#[test]
fn verifier_rejects_a_malformed_proof() {
    let air = FibonacciAIR::from_context(fib_context());
    let mut proof = proof_with(ood_frame(), fe(0), fe(0));
    assert!(!check_proof_shape(&air, &proof));
    assert!(!verify(&proof, &air));
    proof.trace_length = 16;
    assert!(!verify(&proof, &air));
}

#[test]
fn evaluator_matches_pointwise_composition() {
    let air = FibonacciAIR::from_context(fib_context());
    let domain = Domain::new(air.context());
    let c = challenges();
    let n = domain.lde_roots_of_unity_coset.len();
    let col: Vec<Felt> = (0..n as u64).map(|v| fe(v * v + 1)).collect();
    let lde = TraceTable { cols: vec![col] };
    let ev = ConstraintEvaluator::new(&air, &domain.trace_primitive_root, &());
    let values = ev.evaluate(&lde, &domain, &c.transition_coeffs, &c.boundary_coeffs, &()).unwrap();
    assert_eq!(values.len(), n);
    let bcs = air.boundary_constraints(&());
    for i in [0usize, 5, n - 1] {
        let frame = read_frame(&lde, i, domain.blowup_factor, &air.context().transition_offsets, n);
        assert_eq!(frame.rows[2][0], lde.cols[0][(i + 4) % n]);
        let x = domain.lde_roots_of_unity_coset[i];
        let h = evaluate_composition_at(&air, &bcs, &frame, &(), &x, &domain, &c.boundary_coeffs, &c.transition_coeffs);
        assert_eq!(Some(values[i]), h);
    }
}

#[test]
fn composition_sum_runs_over_the_shortest_input() {
    // 2·3·(1·4 + 5) = 54; the second evaluation has no partner and is left out.
    let r = ConstraintEvaluator::<FibonacciAIR>::compute_constraint_composition_poly_evaluations_sum(
        &vec![fe(2), fe(100)],
        &vec![fe(3)],
        &vec![fe(4), fe(4)],
        &vec![(fe(1), fe(5)), (fe(1), fe(5))],
    );
    assert_eq!(r, fe(54));
}

#[test]
fn step_2_rejects_a_malformed_frame() {
    let air = FibonacciAIR::from_context(fib_context());
    let domain = Domain::new(air.context());
    let c = challenges();
    let proof = proof_with(Frame { rows: vec![vec![fe(1)], vec![fe(2)]] }, fe(0), fe(0));
    assert!(!step_2_verify_claimed_composition_polynomial(&air, &proof, &domain, &c));
    let wide = proof_with(Frame { rows: vec![vec![fe(1), fe(1)], vec![fe(2), fe(2)], vec![fe(3), fe(3)]] }, fe(0), fe(0));
    assert!(!step_2_verify_claimed_composition_polynomial(&air, &wide, &domain, &c));
}
