use lambdaworks_stark::field::Felt;

fn fe(v: u64) -> Felt {
    Felt::from_u64(v)
}

fn minus_one() -> Felt {
    Felt { l0: 0x0800_0000_0000_0011, l1: 0, l2: 0, l3: 0 }
}

#[test]
fn arithmetic_on_small_values() {
    assert_eq!(fe(2).add(&fe(3)), fe(5));
    assert_eq!(fe(7).sub(&fe(3)), fe(4));
    assert_eq!(fe(6).mul(&fe(7)), fe(42));
    assert_eq!(fe(9).square(), fe(81));
    assert_eq!(fe(3).pow(4), fe(81));
    assert_eq!(fe(42).div(&fe(6)), fe(7));
    assert_eq!(fe(5).pow(0), fe(1));
}

#[test]
fn arithmetic_wraps_around_the_modulus() {
    assert_eq!(fe(0).sub(&fe(1)), minus_one());
    assert_eq!(minus_one().add(&fe(1)), fe(0));
    assert_eq!(minus_one().mul(&minus_one()), fe(1));
    assert_eq!(fe(u64::MAX).add(&fe(1)), Felt { l0: 0, l1: 0, l2: 1, l3: 0 });
}

#[test]
fn inverse_times_element_is_one() {
    let x = fe(123456789);
    assert_eq!(x.inv().mul(&x), fe(1));
    assert_eq!(fe(2).inv().mul(&fe(2)), fe(1));
    assert_ne!(fe(2).inv(), fe(2));
}

#[test]
fn reduction_check() {
    assert!(fe(5).is_reduced());
    assert!(minus_one().is_reduced());
    assert!(!Felt { l0: 0x0800_0000_0000_0011, l1: 0, l2: 0, l3: 1 }.is_reduced());
    assert!(!Felt { l0: u64::MAX, l1: 0, l2: 0, l3: 0 }.is_reduced());
    assert!(fe(0).is_zero());
    assert!(!fe(1).is_zero());
    assert!(fe(4).equals(&fe(4)));
}

#[test]
fn big_endian_bytes() {
    let x = Felt { l0: 1, l1: 2, l2: 3, l3: 0x0102_0304_0506_0708 };
    let b = x.to_bytes_be();
    assert_eq!(b.len(), 32);
    assert_eq!(&b[0..8], &[0, 0, 0, 0, 0, 0, 0, 1]);
    assert_eq!(&b[24..32], &[1, 2, 3, 4, 5, 6, 7, 8]);
}

#[test]
fn primitive_roots_have_their_order() {
    for order in [1u64, 2, 3, 8] {
        let root = Felt::primitive_root_of_unity(order);
        assert_eq!(root.pow(1u64 << order), fe(1));
        assert_ne!(root.pow(1u64 << (order - 1)), fe(1));
    }
    assert_eq!(Felt::primitive_root_of_unity(0), fe(1));
}
