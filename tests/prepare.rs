use bw6_pairing::bw6::{BW6Parameters, G1Affine, G1Prepared, G2Affine, G2Prepared, TwistType};
use bw6_pairing::field::PrimeField;

const BIG_PRIME: u64 = 18446744073709551557;

fn toy_curve(twist: TwistType, bits: Vec<bool>, digits: Vec<i8>) -> BW6Parameters {
    BW6Parameters {
        field: PrimeField { modulus: 103 },
        coeff_b: 3,
        twist_type: twist,
        ate_loop_count_1: bits,
        ate_loop_count_2: digits,
        g1_generator: G1Affine { x: 1, y: 2, infinity: false },
        g2_generator: G2Affine { x: 1, y: 2, infinity: false },
    }
}

fn point(x: u64, y: u64) -> G2Affine {
    G2Affine { x, y, infinity: false }
}

#[test]
fn field_arithmetic_wraps_at_the_modulus() {
    let f = PrimeField { modulus: BIG_PRIME };
    assert_eq!(f.add(BIG_PRIME - 1, BIG_PRIME - 1), BIG_PRIME - 2);
    assert_eq!(f.add(BIG_PRIME - 1, 1), 0);
    assert_eq!(f.sub(0, 1), BIG_PRIME - 1);
    assert_eq!(f.mul(BIG_PRIME - 1, BIG_PRIME - 1), 1);
    assert_eq!(f.neg(0), 0);
    assert_eq!(f.neg(5), BIG_PRIME - 5);
    assert_eq!(f.square(BIG_PRIME - 2), 4);
    assert_eq!(f.double(BIG_PRIME - 1), BIG_PRIME - 2);
    assert!(f.is_canonical(BIG_PRIME - 1));
    assert!(!f.is_canonical(BIG_PRIME));
}

#[test]
fn infinity_prepares_to_empty_sequences() {
    let params = toy_curve(TwistType::M, vec![true, false, true], vec![1, 0, -1, 1]);
    let q = G2Affine { x: 0, y: 1, infinity: true };
    let prepared = G2Prepared::from(q, &params);
    assert!(prepared.ell_coeffs_1.is_empty());
    assert!(prepared.ell_coeffs_2.is_empty());
    assert!(prepared.infinity);
    assert!(prepared.is_zero());

    let g1 = G1Prepared::from(G1Affine { x: 0, y: 1, infinity: true });
    assert!(g1.is_zero());
    assert!(!G1Prepared::from(G1Affine { x: 1, y: 2, infinity: false }).is_zero());
}

#[test]
fn one_doubling_gives_the_tangent_line() {
    let params = toy_curve(TwistType::M, vec![true, false], vec![1]);
    let prepared = G2Prepared::from(point(1, 2), &params);
    assert_eq!(prepared.ell_coeffs_1, vec![(5, 3, 99)]);
    assert!(prepared.ell_coeffs_2.is_empty());
    assert!(!prepared.infinity);
    assert!(!prepared.is_zero());
}

#[test]
fn set_bit_adds_the_chord_line() {
    let params = toy_curve(TwistType::M, vec![true, true], vec![1]);
    let prepared = G2Prepared::from(point(1, 2), &params);
    assert_eq!(prepared.ell_coeffs_1, vec![(5, 3, 99), (70, 36, 50)]);
}

#[test]
fn both_loops_on_the_m_twist() {
    let params = toy_curve(TwistType::M, vec![true, false, true], vec![1, 0, -1, 1]);
    let prepared = G2Prepared::from(point(1, 2), &params);
    assert_eq!(prepared.ell_coeffs_1, vec![(5, 3, 99), (75, 54, 69), (31, 81, 47)]);
    assert_eq!(
        prepared.ell_coeffs_2,
        vec![(5, 3, 99), (11, 89, 50), (88, 94, 12), (101, 48, 27), (69, 64, 88)]
    );
}

#[test]
fn d_twist_swaps_the_ends_of_each_triple() {
    let pm = toy_curve(TwistType::M, vec![true, false, true], vec![1, 0, -1, 1]);
    let pd = toy_curve(TwistType::D, vec![true, false, true], vec![1, 0, -1, 1]);
    let m = G2Prepared::from(point(1, 2), &pm);
    let d = G2Prepared::from(point(1, 2), &pd);
    assert_eq!(d.ell_coeffs_1, vec![(99, 3, 5), (69, 54, 75), (47, 81, 31)]);
    let swapped: Vec<(u64, u64, u64)> = m.ell_coeffs_2.iter().map(|c| (c.2, c.1, c.0)).collect();
    assert_eq!(d.ell_coeffs_2, swapped);
    assert_eq!(d.infinity, m.infinity);
}

#[test]
fn large_modulus_steps() {
    let params = BW6Parameters {
        field: PrimeField { modulus: BIG_PRIME },
        coeff_b: BIG_PRIME - 3,
        twist_type: TwistType::M,
        ate_loop_count_1: vec![true, true],
        ate_loop_count_2: vec![-1, 1],
        g1_generator: G1Affine { x: 1, y: 2, infinity: false },
        g2_generator: point(BIG_PRIME - 1, BIG_PRIME - 2),
    };
    let prepared = G2Prepared::from(point(BIG_PRIME - 1, BIG_PRIME - 2), &params);
    assert_eq!(prepared.ell_coeffs_1, vec![(18446744073709551544, 3, 4), (691, 571, 60)]);
    assert_eq!(prepared.ell_coeffs_2, vec![(18446744073709551544, 3, 4), (195, 315, 60)]);
}

#[test]
fn lengths_follow_the_loop_counts() {
    let bits = vec![true, false, true, true, false];
    let digits = vec![1, 0, -1, 0, 1];
    let params = toy_curve(TwistType::M, bits, digits);
    let a = G2Prepared::from(point(1, 2), &params);
    let b = G2Prepared::from(point(5, 7), &params);
    // four doublings and two additions in each loop
    assert_eq!(a.ell_coeffs_1.len(), 6);
    assert_eq!(a.ell_coeffs_2.len(), 6);
    assert_eq!(b.ell_coeffs_1.len(), a.ell_coeffs_1.len());
    assert_eq!(b.ell_coeffs_2.len(), a.ell_coeffs_2.len());
}

#[test]
fn empty_loop_counts_give_empty_sequences() {
    let params = toy_curve(TwistType::M, vec![], vec![]);
    let prepared = G2Prepared::from(point(1, 2), &params);
    assert!(prepared.ell_coeffs_1.is_empty());
    assert!(prepared.ell_coeffs_2.is_empty());
    assert!(!prepared.infinity);
}

#[test]
fn default_is_the_prepared_generator() {
    let params = toy_curve(TwistType::M, vec![true, false, true], vec![1, 0, -1, 1]);
    assert_eq!(G2Prepared::default(&params), G2Prepared::from(params.g2_generator, &params));
    assert_eq!(G1Prepared::default(&params), G1Prepared::from(params.g1_generator));
}

#[test]
fn preparing_twice_is_identical() {
    let params = toy_curve(TwistType::D, vec![true, true, false, true], vec![-1, 0, 1, 1]);
    let a = G2Prepared::from(point(5, 7), &params);
    let b = G2Prepared::from(point(5, 7), &params);
    assert_eq!(a, b);
}

#[test]
fn negation_of_a_point() {
    let f = PrimeField { modulus: 103 };
    assert_eq!(point(1, 2).neg(&f), point(1, 101));
    assert_eq!(point(1, 0).neg(&f), point(1, 0));
}
