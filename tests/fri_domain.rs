use lambdaworks_stark::context::{AirContext, ProofOptions};
use lambdaworks_stark::domain::{log2, Domain};
use lambdaworks_stark::field::Felt;
use lambdaworks_stark::fri::{verify_query_and_sym_openings, FriDecommitment};
use lambdaworks_stark::merkle::BatchStarkProverBackend;

fn fe(v: u64) -> Felt {
    Felt::from_u64(v)
}

fn context(trace_length: usize, blowup: u8) -> AirContext {
    AirContext {
        options: ProofOptions { blowup_factor: blowup, fri_number_of_queries: 1, coset_offset: 3, grinding_factor: 0 },
        trace_length,
        trace_columns: 1,
        transition_degrees: vec![1],
        transition_exemptions: vec![2],
        transition_offsets: vec![0, 1, 2],
        num_transition_constraints: 1,
    }
}

#[test]
fn domains_of_a_context() {
    let d = Domain::new(&context(8, 2));
    assert_eq!(d.interpolation_domain_size, 8);
    assert_eq!(d.trace_roots_of_unity.len(), 8);
    assert_eq!(d.lde_roots_of_unity_coset.len(), 16);
    assert_eq!(d.root_order, 3);
    assert_eq!(d.lde_root_order, 4);
    assert_eq!(d.trace_roots_of_unity[0], fe(1));
    assert_eq!(d.lde_roots_of_unity_coset[0], fe(3));
    let g = d.trace_primitive_root;
    assert_eq!(d.trace_roots_of_unity[3], g.pow(3));
    assert_eq!(g.pow(8), fe(1));
    // The coset is the trace domain's square roots shifted by 3: no point is shared.
    for x in d.lde_roots_of_unity_coset.iter() {
        assert!(!d.trace_roots_of_unity.contains(x));
    }
}

#[test]
fn base_two_logarithms() {
    assert_eq!(log2(1), 0);
    assert_eq!(log2(2), 1);
    assert_eq!(log2(1024), 10);
}

#[test]
fn proof_options_validation() {
    let ok = ProofOptions { blowup_factor: 4, fri_number_of_queries: 27, coset_offset: 3, grinding_factor: 20 };
    assert!(ok.is_valid());
    assert!(!ProofOptions { blowup_factor: 3, ..ok }.is_valid());
    assert!(!ProofOptions { fri_number_of_queries: 0, ..ok }.is_valid());
    assert!(!ProofOptions { coset_offset: 0, ..ok }.is_valid());
    assert!(!ProofOptions { grinding_factor: 32, ..ok }.is_valid());
}

/// The co-linearity step `(v + s)/2 + ζ·(v − s)/(2x)`.
fn fold(v: Felt, s: Felt, zeta: Felt, x: Felt) -> Felt {
    let two_inv = fe(2).inv();
    v.add(&s).mul(&two_inv).add(&zeta.mul(&v.sub(&s)).mul(&two_inv).mul(&x.inv()))
}

/// Two FRI layers with one-leaf trees: each root is the digest of the symmetric value.
fn two_layers() -> (Vec<[u8; 32]>, Vec<Felt>, FriDecommitment, Felt, Felt, Felt) {
    let b = BatchStarkProverBackend::new();
    let s0 = fe(11);
    let s1 = fe(13);
    let roots = vec![b.hash_data(&vec![s0]), b.hash_data(&vec![s1])];
    let zetas = vec![fe(5), fe(6)];
    let v0 = fe(9);
    let x0 = fe(3);
    let v1 = fold(v0, s0, zetas[0], x0);
    let last = fold(v1, s1, zetas[1], x0.square());
    let dec = FriDecommitment { layers_evaluations_sym: vec![s0, s1], layers_auth_paths_sym: vec![vec![], vec![]] };
    (roots, zetas, dec, v0, x0, last)
}

#[test]
fn fri_query_accepts_a_consistent_fold() {
    let (roots, zetas, dec, v0, x0, last) = two_layers();
    assert!(verify_query_and_sym_openings(&roots, &zetas, &last, 1, &v0, &x0, &dec, 2, 4));
    assert!(!verify_query_and_sym_openings(&roots, &zetas, &last.add(&fe(1)), 1, &v0, &x0, &dec, 2, 4));
    assert!(!verify_query_and_sym_openings(&roots, &zetas, &last, 1, &v0.add(&fe(1)), &x0, &dec, 2, 4));
}

#[test]
fn swapping_fri_layer_roots_rejects() {
    let (mut roots, zetas, dec, v0, x0, last) = two_layers();
    roots.swap(0, 1);
    assert!(!verify_query_and_sym_openings(&roots, &zetas, &last, 1, &v0, &x0, &dec, 2, 4));
}

#[test]
fn fri_query_with_no_layers_compares_the_first_value() {
    let dec = FriDecommitment { layers_evaluations_sym: vec![], layers_auth_paths_sym: vec![] };
    assert!(verify_query_and_sym_openings(&vec![], &vec![], &fe(4), 0, &fe(4), &fe(3), &dec, 1, 2));
    assert!(!verify_query_and_sym_openings(&vec![], &vec![], &fe(4), 0, &fe(5), &fe(3), &dec, 1, 2));
}

#[test]
fn fri_query_rejects_mismatched_shapes() {
    let (roots, _zetas, dec, v0, x0, last) = two_layers();
    assert!(!verify_query_and_sym_openings(&roots, &vec![fe(5)], &last, 1, &v0, &x0, &dec, 2, 4));
}
