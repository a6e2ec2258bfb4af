use lambdaworks_stark::air::{fibonacci_trace, FibonacciAIR, TraceTable};
use lambdaworks_stark::context::{AirContext, ProofOptions};
use lambdaworks_stark::fibonacci_rap::{fibonacci_rap_trace, FibonacciRAP};
use lambdaworks_stark::field::Felt;
use lambdaworks_stark::prover::{prove, ProvingError};
use lambdaworks_stark::stark_verifier::verify;

fn fe(v: u64) -> Felt {
    Felt::from_u64(v)
}

fn fib_context(trace_length: usize, blowup: u8, queries: usize, grinding: u8) -> AirContext {
    AirContext {
        options: ProofOptions { blowup_factor: blowup, fri_number_of_queries: queries, coset_offset: 3, grinding_factor: grinding },
        trace_length,
        trace_columns: 1,
        transition_degrees: vec![1],
        transition_exemptions: vec![2],
        transition_offsets: vec![0, 1, 2],
        num_transition_constraints: 1,
    }
}

#[test]
fn test_prove_fib() {
    let trace = fibonacci_trace([fe(1), fe(1)], 8);
    let air = FibonacciAIR::from_context(fib_context(8, 2, 1, 0));
    let proof = prove(&trace, &air).unwrap();
    assert!(verify(&proof, &air));
}

#[test]
fn fibonacci_with_blowup_four() {
    let trace = fibonacci_trace([fe(1), fe(1)], 16);
    let air = FibonacciAIR::from_context(fib_context(16, 4, 3, 0));
    let proof = prove(&trace, &air).unwrap();
    assert!(verify(&proof, &air));
}

#[test]
fn proof_of_a_wrong_trace_is_rejected() {
    let mut trace = fibonacci_trace([fe(1), fe(1)], 8);
    trace.cols[0][5] = fe(9);
    let air = FibonacciAIR::from_context(fib_context(8, 2, 3, 0));
    match prove(&trace, &air) {
        Ok(proof) => assert!(!verify(&proof, &air)),
        Err(_) => {}
    }
}

#[test]
fn flipping_a_trace_root_byte_rejects() {
    let trace = fibonacci_trace([fe(1), fe(1)], 8);
    let air = FibonacciAIR::from_context(fib_context(8, 2, 2, 0));
    let mut proof = prove(&trace, &air).unwrap();
    proof.lde_trace_merkle_roots[0][3] ^= 1;
    assert!(!verify(&proof, &air));
}

#[test]
fn incrementing_an_ood_evaluation_rejects() {
    let trace = fibonacci_trace([fe(1), fe(1)], 8);
    let air = FibonacciAIR::from_context(fib_context(8, 2, 2, 0));
    let mut proof = prove(&trace, &air).unwrap();
    proof.trace_ood_frame_evaluations.rows[1][0] = proof.trace_ood_frame_evaluations.rows[1][0].add(&fe(1));
    assert!(!verify(&proof, &air));
}

#[test]
fn swapping_two_fri_roots_rejects() {
    let trace = fibonacci_trace([fe(1), fe(1)], 8);
    let air = FibonacciAIR::from_context(fib_context(8, 2, 2, 0));
    let mut proof = prove(&trace, &air).unwrap();
    assert!(proof.fri_layers_merkle_roots.len() >= 2);
    proof.fri_layers_merkle_roots.swap(0, 1);
    assert!(!verify(&proof, &air));
}

#[test]
fn grinding_nonce_is_checked() {
    let trace = fibonacci_trace([fe(1), fe(1)], 8);
    let air = FibonacciAIR::from_context(fib_context(8, 2, 1, 8));
    let mut proof = prove(&trace, &air).unwrap();
    assert!(verify(&proof, &air));
    assert!(proof.nonce > 0);
    proof.nonce -= 1;
    assert!(!verify(&proof, &air));
}

#[test]
fn changed_boundary_value_rejects() {
    // A proof for the sequence from (1, 1) does not verify against an AIR that
    // fixes the first value to 2.
    let trace = fibonacci_trace([fe(2), fe(1)], 8);
    let air = FibonacciAIR::from_context(fib_context(8, 2, 2, 0));
    match prove(&trace, &air) {
        Ok(proof) => assert!(!verify(&proof, &air)),
        Err(_) => {}
    }
}

#[test]
fn test_prove_rap_fib() {
    let trace_length = 16;
    let trace = fibonacci_rap_trace([fe(1), fe(1)], trace_length);
    let power_of_two_len = trace.cols[0].len();
    let exemptions = 3 + power_of_two_len - trace_length - 1;
    let ctx = AirContext {
        options: ProofOptions { blowup_factor: 2, fri_number_of_queries: 1, coset_offset: 3, grinding_factor: 0 },
        trace_columns: 3,
        trace_length: power_of_two_len,
        transition_degrees: vec![1, 2],
        transition_offsets: vec![0, 1, 2],
        transition_exemptions: vec![exemptions, 1],
        num_transition_constraints: 2,
    };
    let air = FibonacciRAP::new(ctx, power_of_two_len);
    let proof = prove(&trace, &air).unwrap();
    assert!(verify(&proof, &air));
}

#[test]
fn rap_proof_with_corrupted_permutation_is_rejected() {
    let mut trace = fibonacci_rap_trace([fe(1), fe(1)], 15);
    trace.cols[1][4] = fe(6);
    let ctx = AirContext {
        options: ProofOptions { blowup_factor: 2, fri_number_of_queries: 3, coset_offset: 3, grinding_factor: 0 },
        trace_length: trace.cols[0].len(),
        trace_columns: 3,
        transition_degrees: vec![1, 2],
        transition_exemptions: vec![3, 1],
        transition_offsets: vec![0, 1, 2],
        num_transition_constraints: 2,
    };
    let air = FibonacciRAP::new(ctx, trace.cols[0].len());
    match prove(&trace, &air) {
        Ok(proof) => assert!(!verify(&proof, &air)),
        Err(_) => {}
    }
}

#[test]
fn prove_rejects_a_trace_of_the_wrong_width() {
    let trace = TraceTable { cols: vec![vec![fe(1); 8], vec![fe(1); 8]] };
    let air = FibonacciAIR::from_context(fib_context(8, 2, 1, 0));
    assert_eq!(prove(&trace, &air).err(), Some(ProvingError::WrongParameter));
}

#[test]
fn prove_rejects_a_trace_of_the_wrong_length() {
    let trace = fibonacci_trace([fe(1), fe(1)], 4);
    let air = FibonacciAIR::from_context(fib_context(8, 2, 1, 0));
    assert_eq!(prove(&trace, &air).err(), Some(ProvingError::WrongParameter));
}

use lambdaworks_stark::examples::{quadratic_trace, DummyAIR, QuadraticAIR};

fn quadratic_context() -> AirContext {
    AirContext {
        options: ProofOptions { blowup_factor: 2, fri_number_of_queries: 1, coset_offset: 3, grinding_factor: 0 },
        trace_length: 4,
        trace_columns: 1,
        transition_degrees: vec![2],
        transition_exemptions: vec![1],
        transition_offsets: vec![0, 1],
        num_transition_constraints: 1,
    }
}

#[test]
fn test_prove_quadratic() {
    let trace = quadratic_trace(fe(3), 4);
    assert_eq!(trace.cols[0], vec![fe(3), fe(9), fe(81), fe(6561)]);
    let air = QuadraticAIR::new(quadratic_context(), fe(3));
    let proof = prove(&trace, &air).unwrap();
    assert!(verify(&proof, &air));
}

#[test]
fn quadratic_proof_fails_for_another_public_input() {
    let trace = quadratic_trace(fe(3), 4);
    let air = QuadraticAIR::new(quadratic_context(), fe(3));
    let proof = prove(&trace, &air).unwrap();
    let other = QuadraticAIR::new(quadratic_context(), fe(4));
    assert!(!verify(&proof, &other));
}

#[test]
fn test_prove_dummy() {
    let trace_length = 16;
    let bits: Vec<Felt> = (0..trace_length).map(|i| fe((i % 2) as u64)).collect();
    let fib = fibonacci_trace([fe(1), fe(1)], trace_length).cols[0].clone();
    let trace = TraceTable { cols: vec![bits, fib] };
    let ctx = AirContext {
        options: ProofOptions { blowup_factor: 2, fri_number_of_queries: 1, coset_offset: 3, grinding_factor: 0 },
        trace_length,
        trace_columns: 2,
        transition_degrees: vec![2, 1],
        transition_exemptions: vec![0, 2],
        transition_offsets: vec![0, 1, 2],
        num_transition_constraints: 2,
    };
    let air = DummyAIR::new(ctx);
    let proof = prove(&trace, &air).unwrap();
    assert!(verify(&proof, &air));
}

#[test]
fn prove_reports_an_empty_column() {
    let trace = TraceTable { cols: vec![vec![]] };
    let air = FibonacciAIR::from_context(fib_context(8, 2, 1, 0));
    assert_eq!(prove(&trace, &air).err(), Some(ProvingError::InterpolationFailure));
}

#[test]
fn prove_reports_a_composition_of_too_high_degree() {
    // A trace that breaks the transition constraint leaves a composition
    // polynomial that is no low-degree polynomial; with blowup 4 it has more
    // coefficients than two halves under the bound hold.
    let mut trace = fibonacci_trace([fe(1), fe(1)], 8);
    trace.cols[0][5] = fe(9);
    let air = FibonacciAIR::from_context(fib_context(8, 4, 1, 0));
    assert_eq!(prove(&trace, &air).err(), Some(ProvingError::CompositionDegreeMismatch));
}

use lambdaworks_stark::examples::{fibonacci_trace_2_columns, Fibonacci2ColsAIR};

#[test]
fn test_prove_fib_2_cols() {
    let trace = fibonacci_trace_2_columns([fe(1), fe(1)], 16);
    let trace_length = trace.n_rows();
    assert_eq!(trace.cols[0][1], fe(2));
    assert_eq!(trace.cols[1][1], fe(3));
    let ctx = AirContext {
        options: ProofOptions { blowup_factor: 2, fri_number_of_queries: 7, coset_offset: 3, grinding_factor: 0 },
        trace_length,
        transition_degrees: vec![1, 1],
        transition_exemptions: vec![1, 1],
        transition_offsets: vec![0, 1],
        num_transition_constraints: 2,
        trace_columns: 2,
    };
    let air = Fibonacci2ColsAIR::new(ctx);
    let proof = prove(&trace, &air).unwrap();
    assert!(verify(&proof, &air));
}
