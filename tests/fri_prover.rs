use lambdaworks_stark::field::Felt;
use lambdaworks_stark::fri::{fold_polynomial, fri_commit_phase, fri_query_phase, verify_query_and_sym_openings, FriLayer};
use lambdaworks_stark::merkle::{BatchStarkProverBackend, MerkleTree};
use lambdaworks_stark::poly::evaluate;
use lambdaworks_stark::transcript::{transcript_to_field, StarkTranscript};

fn fe(v: u64) -> Felt {
    Felt::from_u64(v)
}

#[test]
fn horner_evaluation() {
    // 1 + 2x + 3x² at x = 5: 1 + 10 + 75.
    assert_eq!(evaluate(&vec![fe(1), fe(2), fe(3)], &fe(5)), fe(86));
    assert_eq!(evaluate(&vec![], &fe(5)), fe(0));
}

#[test]
fn folding_pairs_even_and_odd_coefficients() {
    // (1, 2, 3, 4, 5) with β = 10: (1 + 20, 3 + 40, 5).
    let f = fold_polynomial(&vec![fe(1), fe(2), fe(3), fe(4), fe(5)], &fe(10));
    assert_eq!(f, vec![fe(21), fe(43), fe(5)]);
    assert_eq!(fold_polynomial(&vec![], &fe(10)), vec![]);
}

#[test]
fn merkle_tree_paths_verify() {
    let leaves: Vec<Vec<Felt>> = (0..5u64).map(|i| vec![fe(i), fe(i * i)]).collect();
    let tree = MerkleTree::build(&leaves).unwrap();
    assert_eq!(tree.levels[0].len(), 8);
    assert_eq!(tree.levels.len(), 4);
    let b = BatchStarkProverBackend::new();
    let root = tree.root();
    for i in 0..5 {
        let path = tree.get_proof_by_pos(i).unwrap();
        assert_eq!(path.len(), 3);
        assert!(b.verify_path(&root, i, &leaves[i], &path));
    }
    // Padding repeats the last leaf.
    let path = tree.get_proof_by_pos(7).unwrap();
    assert!(b.verify_path(&root, 7, &leaves[4], &path));
    assert!(tree.get_proof_by_pos(8).is_none());
    assert!(MerkleTree::build(&vec![]).is_none());
}

#[test]
fn single_leaf_tree() {
    let tree = MerkleTree::build(&vec![vec![fe(9)]]).unwrap();
    let b = BatchStarkProverBackend::new();
    assert_eq!(tree.root(), b.hash_data(&vec![fe(9)]));
    assert_eq!(tree.get_proof_by_pos(0), Some(vec![]));
}

#[test]
fn fri_layer_evaluates_on_the_coset() {
    let poly = vec![fe(1), fe(2), fe(3), fe(4)];
    let layer = FriLayer::new(poly.clone(), &fe(3), 8);
    let w = Felt::primitive_root_of_unity(3);
    for i in 0..8u64 {
        let x = fe(3).mul(&w.pow(i));
        assert_eq!(layer.evaluation[i as usize], evaluate(&poly, &x));
    }
}

struct Committed {
    roots: Vec<[u8; 32]>,
    zetas: Vec<Felt>,
    last: Felt,
    layers: Vec<FriLayer>,
}

fn commit() -> Committed {
    let poly = vec![fe(1), fe(2), fe(3), fe(4)];
    let mut t = StarkTranscript::new();
    let (last, layers) = fri_commit_phase(3, poly, &mut t, &fe(3), 8);
    let roots: Vec<[u8; 32]> = layers.iter().map(|l| l.merkle_tree.root()).collect();
    let mut replay = StarkTranscript::new();
    let mut zetas = Vec::new();
    for r in roots.iter() {
        replay.append(r);
        zetas.push(transcript_to_field(&mut replay));
    }
    Committed { roots, zetas, last, layers }
}

#[test]
fn fri_layers_halve_and_fold() {
    let c = commit();
    assert_eq!(c.layers.len(), 3);
    let sizes: Vec<usize> = c.layers.iter().map(|l| l.domain_size).collect();
    assert_eq!(sizes, vec![8, 4, 2]);
    assert_eq!(c.layers[1].poly, fold_polynomial(&c.layers[0].poly, &c.zetas[0]));
    assert_eq!(c.layers[2].poly, fold_polynomial(&c.layers[1].poly, &c.zetas[1]));
    assert_eq!(c.layers[1].coset_offset, fe(9));
    assert_eq!(c.last, fold_polynomial(&c.layers[2].poly, &c.zetas[2])[0]);
}

#[test]
fn fri_round_trip_accepts() {
    let c = commit();
    let mut t = StarkTranscript::new();
    let (queries, iotas) = fri_query_phase(4, 8, &c.layers, &mut t);
    assert_eq!(queries.len(), 4);
    let w = Felt::primitive_root_of_unity(3);
    for (q, iota) in queries.iter().zip(iotas.iter()) {
        let x0 = fe(3).mul(&w.pow(*iota as u64));
        let v0 = c.layers[0].evaluation[*iota];
        assert!(verify_query_and_sym_openings(&c.roots, &c.zetas, &c.last, *iota, &v0, &x0, q, 3, 8));
        assert!(!verify_query_and_sym_openings(&c.roots, &c.zetas, &c.last, *iota, &v0.add(&fe(1)), &x0, q, 3, 8));
    }
}

#[test]
fn fri_round_trip_rejects_swapped_roots() {
    let c = commit();
    let mut t = StarkTranscript::new();
    let (queries, iotas) = fri_query_phase(2, 8, &c.layers, &mut t);
    let w = Felt::primitive_root_of_unity(3);
    let mut swapped = c.roots.clone();
    swapped.swap(0, 1);
    for (q, iota) in queries.iter().zip(iotas.iter()) {
        let x0 = fe(3).mul(&w.pow(*iota as u64));
        let v0 = c.layers[0].evaluation[*iota];
        assert!(!verify_query_and_sym_openings(&swapped, &c.zetas, &c.last, *iota, &v0, &x0, q, 3, 8));
    }
}

#[test]
fn fri_round_trip_rejects_a_flipped_root_byte() {
    let c = commit();
    let mut t = StarkTranscript::new();
    let (queries, iotas) = fri_query_phase(1, 8, &c.layers, &mut t);
    let w = Felt::primitive_root_of_unity(3);
    let mut roots = c.roots.clone();
    roots[1][0] ^= 0x80;
    let x0 = fe(3).mul(&w.pow(iotas[0] as u64));
    let v0 = c.layers[0].evaluation[iotas[0]];
    assert!(!verify_query_and_sym_openings(&roots, &c.zetas, &c.last, iotas[0], &v0, &x0, &queries[0], 3, 8));
}
