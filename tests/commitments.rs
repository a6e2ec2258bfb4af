use lambdaworks_stark::field::Felt;
use lambdaworks_stark::grinding::{generate_nonce, hash_with_nonce, is_valid_nonce, leading_zeros};
use lambdaworks_stark::merkle::{BatchStarkProverBackend, digest_eq};
use lambdaworks_stark::transcript::{StarkTranscript, transcript_to_field, transcript_to_usize, u64_from_be_prefix};

fn fe(v: u64) -> Felt {
    Felt::from_u64(v)
}

/// A four-leaf tree: the root and the path of each leaf.
fn tree(leaves: &[Vec<Felt>; 4]) -> ([u8; 32], Vec<Vec<[u8; 32]>>) {
    let b = BatchStarkProverBackend::new();
    let h: Vec<[u8; 32]> = leaves.iter().map(|l| b.hash_data(l)).collect();
    let p01 = b.hash_new_parent(&h[0], &h[1]);
    let p23 = b.hash_new_parent(&h[2], &h[3]);
    let root = b.hash_new_parent(&p01, &p23);
    let paths = vec![vec![h[1], p23], vec![h[0], p23], vec![h[3], p01], vec![h[2], p01]];
    (root, paths)
}

fn leaves() -> [Vec<Felt>; 4] {
    [vec![fe(1), fe(2)], vec![fe(3), fe(4)], vec![fe(5), fe(6)], vec![fe(7), fe(8)]]
}

#[test]
fn merkle_paths_authenticate_their_leaves() {
    let b = BatchStarkProverBackend::new();
    let l = leaves();
    let (root, paths) = tree(&l);
    for i in 0..4 {
        assert!(b.verify_path(&root, i, &l[i], &paths[i]));
    }
    assert!(!b.verify_path(&root, 1, &l[0], &paths[0]));
    assert!(!b.verify_path(&root, 0, &vec![fe(1), fe(3)], &paths[0]));
}

#[test]
fn flipping_a_root_byte_rejects() {
    let b = BatchStarkProverBackend::new();
    let l = leaves();
    let (mut root, paths) = tree(&l);
    root[7] ^= 1;
    assert!(!b.verify_path(&root, 2, &l[2], &paths[2]));
}

#[test]
fn leaf_hash_is_sha3_of_big_endian_elements() {
    let b = BatchStarkProverBackend::new();
    let d = b.hash_data(&vec![fe(1)]);
    let e = b.hash_data(&vec![]);
    // SHA3-256 of the empty string.
    assert_eq!(e[0..4], [0xa7, 0xff, 0xc6, 0xf8]);
    assert_ne!(d, e);
    assert!(digest_eq(&d, &d));
    assert!(!digest_eq(&d, &e));
    let p = b.hash_new_parent(&d, &e);
    assert_ne!(p, b.hash_new_parent(&e, &d));
}

#[test]
fn leading_zero_bits_of_digests() {
    let mut d = [0u8; 32];
    assert_eq!(leading_zeros(&d), 256);
    d[0] = 0x80;
    assert_eq!(leading_zeros(&d), 0);
    d[0] = 0;
    d[1] = 0x01;
    assert_eq!(leading_zeros(&d), 15);
    d[1] = 0x10;
    assert_eq!(leading_zeros(&d), 11);
}

#[test]
fn grinding_finds_the_smallest_nonce() {
    let seed = [7u8; 32];
    let factor = 16;
    let nonce = generate_nonce(&seed, factor).unwrap();
    assert!(is_valid_nonce(&seed, nonce, factor));
    assert!(leading_zeros(&hash_with_nonce(&seed, nonce)) >= 16);
    for m in 0..nonce {
        assert!(!is_valid_nonce(&seed, m, factor));
    }
}

#[test]
fn decremented_nonce_fails_grinding() {
    let seed = [3u8; 32];
    let factor = 12;
    let nonce = generate_nonce(&seed, factor).unwrap();
    assert!(nonce > 0);
    assert!(!is_valid_nonce(&seed, nonce - 1, factor));
}

#[test]
fn zero_grinding_factor_accepts_nonce_zero() {
    let seed = [0u8; 32];
    assert_eq!(generate_nonce(&seed, 0), Some(0));
}

#[test]
fn transcripts_are_deterministic() {
    let mut t1 = StarkTranscript::new();
    let mut t2 = StarkTranscript::new();
    t1.append(&[1, 2, 3]);
    t2.append(&[1, 2, 3]);
    let c1 = t1.challenge();
    assert_eq!(c1, t2.challenge());
    assert_eq!(transcript_to_field(&mut t1), transcript_to_field(&mut t2));
    assert_eq!(transcript_to_usize(&mut t1), transcript_to_usize(&mut t2));
    let mut t3 = StarkTranscript::new();
    t3.append(&[1, 2, 4]);
    assert_ne!(t3.challenge(), c1);
}

#[test]
fn field_challenge_reads_eight_big_endian_bytes() {
    let mut c = [0u8; 32];
    c[0] = 1;
    c[7] = 2;
    c[8] = 0xff;
    assert_eq!(u64_from_be_prefix(&c), 0x0100_0000_0000_0002);
}

#[test]
fn field_draw_is_the_challenge_prefix() {
    let mut t1 = StarkTranscript::new();
    let mut t2 = StarkTranscript::new();
    t1.append(&[9, 8, 7]);
    t2.append(&[9, 8, 7]);
    let c = t1.challenge();
    let mut prefix = [0u8; 8];
    prefix.copy_from_slice(&c[..8]);
    assert_eq!(transcript_to_field(&mut t2), Felt::from_u64(u64::from_be_bytes(prefix)));
    // Both sponges now hold the challenge, so the next draws agree too.
    assert_eq!(t1.challenge(), t2.challenge());
}
