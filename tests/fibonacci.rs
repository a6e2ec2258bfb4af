use lambdaworks_stark::air::{AIR, Frame, FibonacciAIR, fibonacci_trace};
use lambdaworks_stark::context::{AirContext, ProofOptions};
use lambdaworks_stark::field::Felt;
use lambdaworks_stark::fibonacci_rap::{FibonacciRAP, fibonacci_rap_trace};

fn fe(v: u64) -> Felt {
    Felt::from_u64(v)
}

fn options() -> ProofOptions {
    ProofOptions { blowup_factor: 2, fri_number_of_queries: 1, coset_offset: 3, grinding_factor: 0 }
}

fn fib_context(trace_length: usize) -> AirContext {
    AirContext {
        options: options(),
        trace_length,
        trace_columns: 1,
        transition_degrees: vec![1],
        transition_exemptions: vec![2],
        transition_offsets: vec![0, 1, 2],
        num_transition_constraints: 1,
    }
}

fn rap_context(trace_length: usize) -> AirContext {
    AirContext {
        options: options(),
        trace_length,
        trace_columns: 3,
        transition_degrees: vec![1, 2],
        transition_exemptions: vec![3, 1],
        transition_offsets: vec![0, 1, 2],
        num_transition_constraints: 2,
    }
}

#[test]
fn test_build_fibonacci_rap_trace() {
    let trace = fibonacci_rap_trace([fe(1), fe(1)], 8);
    let mut col0: Vec<Felt> = [1u64, 1, 2, 3, 5, 8, 13, 21, 0].iter().map(|v| fe(*v)).collect();
    let mut col1: Vec<Felt> = [21u64, 1, 2, 3, 5, 8, 13, 1, 0].iter().map(|v| fe(*v)).collect();
    col0.resize(16, fe(0));
    col1.resize(16, fe(0));
    assert_eq!(trace.cols, vec![col0, col1]);
}

#[test]
fn aux_col() {
    let trace = fibonacci_rap_trace([fe(1), fe(1)], 64);
    let not_perm = trace.cols[0].clone();
    let perm = trace.cols[1].clone();
    let gamma = fe(10);
    assert_eq!(perm.len(), not_perm.len());
    let air = FibonacciRAP::new(rap_context(perm.len()), perm.len());
    let aux = air.running_product_trace(&trace, &gamma);
    assert_eq!(aux.cols[0].last().unwrap(), &fe(1));
}

#[test]
fn fibonacci_trace_holds_the_sequence() {
    let trace = fibonacci_trace([fe(1), fe(1)], 8);
    let expected: Vec<Felt> = [1u64, 1, 2, 3, 5, 8, 13, 21].iter().map(|v| fe(*v)).collect();
    assert_eq!(trace.cols, vec![expected]);
    assert_eq!(trace.n_rows(), 8);
    assert_eq!(trace.n_cols(), 1);
}

#[test]
fn fibonacci_transition_vanishes_on_the_trace_and_not_off_it() {
    let air = FibonacciAIR::from_context(fib_context(8));
    let good = Frame { rows: vec![vec![fe(5)], vec![fe(8)], vec![fe(13)]] };
    assert_eq!(air.compute_transition(&good, &()), vec![fe(0)]);
    let bad = Frame { rows: vec![vec![fe(5)], vec![fe(8)], vec![fe(14)]] };
    assert_eq!(air.compute_transition(&bad, &()), vec![fe(1)]);
    let below = Frame { rows: vec![vec![fe(5)], vec![fe(8)], vec![fe(12)]] };
    assert_eq!(air.compute_transition(&below, &()), vec![fe(1).sub(&fe(2))]);
}

#[test]
fn fibonacci_boundary_constraints_fix_the_first_two_rows() {
    let air = FibonacciAIR::from_context(fib_context(8));
    let bcs = air.boundary_constraints(&());
    assert_eq!(bcs.len(), 2);
    assert_eq!((bcs[0].col, bcs[0].step, bcs[0].value), (0, 0, fe(1)));
    assert_eq!((bcs[1].col, bcs[1].step, bcs[1].value), (0, 1, fe(1)));
    assert_eq!(air.composition_poly_degree_bound(), 8);
    assert_eq!(air.number_auxiliary_rap_columns(), 0);
}

#[test]
fn fibonacci_rap_transition_values() {
    let air = FibonacciRAP::new(rap_context(16), 16);
    let gamma = fe(10);
    // z₁·(b₀ + γ) − z₀·(a₀ + γ) with z₀ = 1, z₁ = (a₀ + γ)/(b₀ + γ): zero.
    let a0 = fe(1);
    let b0 = fe(21);
    let z1 = a0.add(&gamma).div(&b0.add(&gamma));
    let frame = Frame { rows: vec![vec![a0, b0, fe(1)], vec![fe(1), fe(1), z1], vec![fe(2), fe(2), fe(0)]] };
    assert_eq!(air.compute_transition(&frame, &gamma), vec![fe(0), fe(0)]);
    let broken = Frame { rows: vec![vec![a0, b0, fe(1)], vec![fe(1), fe(1), fe(1)], vec![fe(2), fe(2), fe(0)]] };
    // 1·(21 + 10) − 1·(1 + 10) = 20.
    assert_eq!(air.compute_transition(&broken, &gamma), vec![fe(0), fe(20)]);
    let bcs = air.boundary_constraints(&gamma);
    assert_eq!(bcs.len(), 4);
    assert_eq!((bcs[3].col, bcs[3].step, bcs[3].value), (2, 15, fe(1)));
    assert_eq!((bcs[2].col, bcs[2].step, bcs[2].value), (2, 0, fe(1)));
    assert_eq!(air.trace_length(), 16);
    assert_eq!(air.number_auxiliary_rap_columns(), 1);
}

#[test]
fn corrupting_a_permuted_entry_breaks_the_running_product() {
    let mut trace = fibonacci_rap_trace([fe(1), fe(1)], 8);
    trace.cols[1][3] = fe(4);
    let air = FibonacciRAP::new(rap_context(16), 16);
    let aux = air.running_product_trace(&trace, &fe(10));
    assert_ne!(aux.cols[0].last().unwrap(), &fe(1));
}

#[test]
fn fibonacci_rap_trace_of_two_steps() {
    let trace = fibonacci_rap_trace([fe(3), fe(4)], 2);
    assert_eq!(trace.cols[0], vec![fe(3), fe(4), fe(0), fe(0)]);
    assert_eq!(trace.cols[1], vec![fe(4), fe(3), fe(0), fe(0)]);
}
