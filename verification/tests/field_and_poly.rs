use ministark::field::{Felt, MODULUS};
use ministark::fri::{check_fold, fold_by, fold_layer, fold_values, square_times};
use ministark::poly::{evaluate_at, evaluate_columns_at};

fn f(v: u64) -> Felt {
    Felt::new(v)
}

/// A root of unity of order 4: the generator 7 raised to (p - 1) / 4.
fn root_of_order_four() -> Felt {
    f(7).pow((MODULUS - 1) / 4)
}

#[test]
fn new_reduces_modulo_the_prime() {
    assert_eq!(Felt::new(MODULUS).raw, 0);
    assert_eq!(Felt::new(MODULUS + 5).raw, 5);
    assert_eq!(Felt::new(u64::MAX).raw, 4294967294);
    assert_eq!(Felt::zero().raw, 0);
    assert_eq!(Felt::one().raw, 1);
}

#[test]
fn addition_wraps_at_the_prime() {
    assert_eq!(f(MODULUS - 1).add(&f(2)), f(1));
    assert_eq!(f(3).add(&f(4)), f(7));
    assert_eq!(f(MODULUS - 1).add(&f(MODULUS - 1)), f(MODULUS - 2));
}

#[test]
fn subtraction_wraps_below_zero() {
    assert_eq!(f(3).sub(&f(5)), f(MODULUS - 2));
    assert_eq!(f(5).sub(&f(3)), f(2));
    assert_eq!(f(0).sub(&f(1)), f(MODULUS - 1));
}

#[test]
fn multiplication_reduces_the_product() {
    assert_eq!(f(6).mul(&f(7)), f(42));
    // (p - 1)^2 = 1
    assert_eq!(f(MODULUS - 1).mul(&f(MODULUS - 1)), f(1));
    // 2^32 * 2^32 = 2^64 = 2^32 - 1
    assert_eq!(f(1 << 32).mul(&f(1 << 32)), f(4294967295));
}

#[test]
fn words_that_are_not_canonical_stand_for_their_class() {
    let a = Felt { raw: MODULUS + 3 };
    assert!(a.equals(&f(3)));
    assert_eq!(a.to_canonical(), 3);
    assert_eq!(a.add(&f(1)), f(4));
    assert_eq!(a.mul(&f(2)), f(6));
    assert!(Felt { raw: MODULUS }.is_zero());
    assert!(!f(1).is_zero());
}

#[test]
fn powers_by_repeated_squaring() {
    assert_eq!(f(2).pow(0), f(1));
    assert_eq!(f(2).pow(1), f(2));
    assert_eq!(f(2).pow(10), f(1024));
    assert_eq!(f(2).pow(64), f(4294967295));
    assert_eq!(f(3).pow(5), f(243));
    assert_eq!(f(0).pow(0), f(1));
    assert_eq!(f(7).pow(MODULUS - 1), f(1));
}

#[test]
fn inverse_times_element_is_one() {
    for v in [1u64, 2, 3, 7, 1 << 40, MODULUS - 1] {
        assert_eq!(f(v).mul(&f(v).inverse()), f(1));
    }
    assert_eq!(f(2).inverse(), f((MODULUS + 1) / 2));
    assert_eq!(f(0).inverse(), f(0));
}

#[test]
fn root_of_order_four_squares_to_minus_one() {
    let w = root_of_order_four();
    assert_eq!(w.mul(&w), f(MODULUS - 1));
    assert_eq!(w.pow(4), f(1));
}

#[test]
fn horner_evaluates_a_polynomial() {
    // 1 + 2x + 3x^2 at 5
    assert_eq!(evaluate_at(&vec![f(1), f(2), f(3)], &f(5)), f(86));
    assert_eq!(evaluate_at(&vec![], &f(5)), f(0));
    assert_eq!(evaluate_at(&vec![f(9)], &f(5)), f(9));
    let columns = vec![vec![f(1), f(1)], vec![f(0), f(0), f(1)]];
    assert_eq!(evaluate_columns_at(&columns, &f(4)), vec![f(5), f(16)]);
}

#[test]
fn folding_halves_the_degree() {
    // f(x) = 3 + 5x + 7x^2 + 11x^3 folds into (3 + 5z) + (7 + 11z) y at y = x^2.
    let coeffs = vec![f(3), f(5), f(7), f(11)];
    let h = f(7);
    let w = root_of_order_four();
    let zeta = f(123456789);
    let mut evals = Vec::new();
    for i in 0..4u64 {
        evals.push(evaluate_at(&coeffs, &h.mul(&w.pow(i))));
    }
    let folded = fold_layer(&evals, &h, &w, &zeta);
    let half = vec![f(3).add(&zeta.mul(&f(5))), f(7).add(&zeta.mul(&f(11)))];
    let h2 = h.mul(&h);
    let w2 = w.mul(&w);
    assert_eq!(folded.len(), 2);
    for i in 0..2u64 {
        assert_eq!(folded[i as usize], evaluate_at(&half, &h2.mul(&w2.pow(i))));
    }
}

#[test]
fn folded_values_pass_the_verifier_check() {
    let coeffs = vec![f(1), f(2), f(3), f(4), f(5), f(6), f(7), f(8)];
    let h = f(7);
    let w = f(7).pow((MODULUS - 1) / 8);
    let zeta = f(99);
    let mut evals = Vec::new();
    for i in 0..8u64 {
        evals.push(evaluate_at(&coeffs, &h.mul(&w.pow(i))));
    }
    let folded = fold_layer(&evals, &h, &w, &zeta);
    assert_eq!(folded.len(), 4);
    for i in 0..4usize {
        let x = h.mul(&w.pow(i as u64));
        assert!(check_fold(&evals[i], &evals[i + 4], &x, &zeta, &folded[i]));
        assert_eq!(fold_values(&evals[i], &evals[i + 4], &x, &zeta), folded[i]);
        assert!(!check_fold(&evals[i], &evals[i + 4], &x, &zeta, &folded[i].add(&f(1))));
    }
}

#[test]
fn folding_by_eight_leaves_a_constant() {
    // A polynomial of degree < 8 folded three times in two is constant.
    let coeffs = vec![f(1), f(2), f(3), f(4), f(5), f(6), f(7), f(8)];
    let h = f(7);
    let w = f(7).pow((MODULUS - 1) / 16);
    let zeta = f(5);
    let mut evals = Vec::new();
    for i in 0..16u64 {
        evals.push(evaluate_at(&coeffs, &h.mul(&w.pow(i))));
    }
    let folded = fold_by(&evals, &h, &w, &zeta, 3);
    assert_eq!(folded.len(), 2);
    assert_eq!(folded[0], folded[1]);
    // Folding with z, z^2, z^4 mixes the coefficients by the powers of z.
    assert_eq!(folded[0], evaluate_at(&coeffs, &zeta));
    assert_eq!(fold_by(&evals, &h, &w, &zeta, 0), evals);
}

#[test]
fn squaring_repeatedly() {
    assert_eq!(square_times(&f(3), 0), f(3));
    assert_eq!(square_times(&f(3), 1), f(9));
    assert_eq!(square_times(&f(3), 3), f(6561));
}
