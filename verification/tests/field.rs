use volvelle_field::fe::Fe;

fn all() -> Vec<Fe> {
    (0u8..32).map(Fe::from_bin).collect()
}

#[test]
fn constants_have_their_binary_expressions() {
    assert_eq!(Fe::zero().to_bin(), 0);
    assert_eq!(Fe::one().to_bin(), 1);
    assert_eq!(Fe::zero(), Fe::from_bin(0));
    assert_eq!(Fe::one(), Fe::from_bin(1));
    assert_ne!(Fe::zero(), Fe::one());
}

#[test]
fn from_bin_keeps_the_value() {
    for n in 0u8..32 {
        assert_eq!(Fe::from_bin(n).to_bin(), n);
    }
}

#[test]
fn addition_is_exclusive_or() {
    for a in 0u8..32 {
        for b in 0u8..32 {
            assert_eq!((Fe::from_bin(a) + Fe::from_bin(b)).to_bin(), a ^ b);
            assert_eq!((Fe::from_bin(a) + &Fe::from_bin(b)).to_bin(), a ^ b);
        }
    }
    assert_eq!(Fe::from_bin(25) + Fe::from_bin(27), Fe::from_bin(2));
}

#[test]
fn addition_is_its_own_inverse() {
    for a in all() {
        assert_eq!(a + a, Fe::zero());
        for b in all() {
            assert_eq!((a + b) + b, a);
        }
    }
}

#[test]
fn addition_is_commutative_and_associative() {
    for a in all() {
        for b in all() {
            assert_eq!(a + b, b + a);
            for c in all() {
                assert_eq!((a + b) + c, a + (b + c));
            }
        }
    }
}

#[test]
fn known_products() {
    let product = |a: u8, b: u8| (Fe::from_bin(a) * Fe::from_bin(b)).to_bin();
    assert_eq!(product(3, 3), 5);
    assert_eq!(product(16, 2), 9);
    assert_eq!(product(31, 31), 29);
    assert_eq!(product(25, 27), 18);
    assert_eq!(product(20, 20), 10);
    assert_eq!(product(31, 2), 23);
    assert_eq!(product(16, 16), 26);
    assert_eq!(product(9, 13), 30);
    let by_seven: Vec<u8> = (0u8..8).map(|x| product(7, x)).collect();
    assert_eq!(by_seven, vec![0, 7, 14, 9, 28, 27, 18, 21]);
}

#[test]
fn doubling_folds_the_overflow_back() {
    let expected: [u8; 32] = [
        0, 2, 4, 6, 8, 10, 12, 14, 16, 18, 20, 22, 24, 26, 28, 30, 9, 11, 13, 15, 1, 3, 5, 7, 25,
        27, 29, 31, 17, 19, 21, 23,
    ];
    for x in 0u8..32 {
        assert_eq!((Fe::from_bin(2) * Fe::from_bin(x)).to_bin(), expected[x as usize]);
    }
}

#[test]
fn product_by_reference_is_the_same() {
    for a in all() {
        for b in all() {
            assert_eq!(a * b, a * &b);
        }
    }
}

#[test]
fn multiplication_distributes_over_addition() {
    for a in all() {
        for b in all() {
            for c in all() {
                assert_eq!(a * (b + c), a * b + a * c);
                assert_eq!((a + b) * c, a * c + b * c);
            }
        }
    }
}

#[test]
fn one_is_the_identity_and_zero_annihilates() {
    for a in all() {
        assert_eq!(a * Fe::one(), a);
        assert_eq!(Fe::one() * a, a);
        assert_eq!(a * Fe::zero(), Fe::zero());
        assert_eq!(Fe::zero() * a, Fe::zero());
    }
}

#[test]
fn multiplication_is_commutative_and_associative() {
    for a in all() {
        for b in all() {
            assert_eq!(a * b, b * a);
            for c in all() {
                assert_eq!((a * b) * c, a * (b * c));
            }
        }
    }
}

#[test]
fn every_element_but_zero_has_one_inverse() {
    let expected: [u8; 31] = [
        1, 20, 24, 10, 8, 12, 29, 5, 11, 4, 9, 6, 28, 26, 31, 22, 18, 17, 23, 2, 25, 16, 19, 3,
        21, 14, 30, 13, 7, 27, 15,
    ];
    for a in 1u8..32 {
        let inverses: Vec<u8> =
            (0u8..32).filter(|&b| Fe::from_bin(a) * Fe::from_bin(b) == Fe::one()).collect();
        assert_eq!(inverses, vec![expected[(a - 1) as usize]]);
    }
}

#[test]
fn a_product_is_zero_only_if_a_factor_is() {
    for a in all() {
        for b in all() {
            assert_eq!(a * b == Fe::zero(), a == Fe::zero() || b == Fe::zero());
        }
    }
}

#[test]
fn elements_are_copied_freely() {
    let a = Fe::from_bin(21);
    let b = a;
    let c = a.clone();
    assert_eq!(a, b);
    assert_eq!(a, c);
    assert_eq!(format!("{:?}", a), "Fe(21)");
}
