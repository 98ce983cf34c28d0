use rustle_my_net::scalar::{find_max, is_comparable, is_number, less_than, rank_of, ONE, ZERO};

fn bits(values: &[f32]) -> Vec<u32> {
    values.iter().map(|x| x.to_bits()).collect()
}

#[test]
fn constants_are_the_bit_patterns_of_zero_and_one() {
    assert_eq!(ZERO, 0.0f32.to_bits());
    assert_eq!(ONE, 1.0f32.to_bits());
}

#[test]
fn rank_orders_bit_patterns_as_the_scalars_are_ordered() {
    let samples = [
        f32::NEG_INFINITY,
        -3.5e10,
        -2.0,
        -1.0,
        -1.0e-30,
        -0.0,
        0.0,
        1.0e-40,
        1.0e-30,
        0.25,
        0.73105857863,
        0.91786604895,
        1.0,
        2.4137,
        7.0e20,
        f32::INFINITY,
    ];
    for a in samples.iter() {
        for b in samples.iter() {
            assert_eq!(a < b, less_than(a.to_bits(), b.to_bits()), "{} < {}", a, b);
            assert_eq!(a == b, rank_of(a.to_bits()) == rank_of(b.to_bits()), "{} == {}", a, b);
        }
    }
}

#[test]
fn both_zeros_have_rank_zero() {
    assert_eq!(rank_of(0.0f32.to_bits()), 0);
    assert_eq!(rank_of((-0.0f32).to_bits()), 0);
    assert_eq!(rank_of(1.0f32.to_bits()), 0x3f80_0000);
    assert_eq!(rank_of((-1.0f32).to_bits()), -0x3f80_0000);
}

#[test]
fn not_a_number_is_recognised() {
    assert!(!is_number(f32::NAN.to_bits()));
    assert!(!is_number(0xffc0_0001));
    assert!(is_number(f32::INFINITY.to_bits()));
    assert!(is_number(f32::NEG_INFINITY.to_bits()));
    assert!(is_number(f32::MAX.to_bits()));
}

#[test]
fn comparable_means_not_empty_and_all_numbers() {
    assert!(!is_comparable(&Vec::new()));
    assert!(is_comparable(&bits(&[0.5])));
    assert!(is_comparable(&bits(&[0.5, -1.0, 3.0])));
    assert!(!is_comparable(&bits(&[0.5, f32::NAN, 3.0])));
}

#[test]
fn find_max_gives_the_index_of_the_largest() {
    assert_eq!(find_max(&bits(&[0.1, 0.7, 0.2])), 1);
    assert_eq!(find_max(&bits(&[0.9, 0.7, 0.2])), 0);
    assert_eq!(find_max(&bits(&[-0.9, -0.7, -0.2])), 2);
    assert_eq!(find_max(&bits(&[-5.0])), 0);
}

#[test]
fn find_max_breaks_ties_by_the_first_index() {
    assert_eq!(find_max(&bits(&[0.2, 0.7, 0.7, 0.1])), 1);
    assert_eq!(find_max(&bits(&[1.0, 1.0, 1.0])), 0);
    assert_eq!(find_max(&bits(&[-0.0, 0.0])), 0);
    assert_eq!(find_max(&bits(&[0.0, -0.0])), 0);
}

#[test]
fn find_max_of_a_one_hot_vector_is_its_class() {
    assert_eq!(find_max(&vec![ZERO, ZERO, ONE]), 2);
    assert_eq!(find_max(&vec![ONE, ZERO, ZERO]), 0);
}
