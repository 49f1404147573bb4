use vector_extensions::{monotonic_of, monotonic_of_reversed, Monotonic, VectorExtensions};

#[test]
fn empty_sequence_has_no_trend() {
    let data: Vec<i64> = Vec::new();
    assert_eq!(monotonic_of(&data), Monotonic::NotMonotonic);
    assert_eq!(monotonic_of_reversed(&data), Monotonic::NotMonotonic);
}

#[test]
fn single_element_has_no_trend() {
    assert_eq!(monotonic_of(&[42u8]), Monotonic::NotMonotonic);
    assert_eq!(monotonic_of_reversed(&[42u8]), Monotonic::NotMonotonic);
}

#[test]
fn flat_pair_has_no_trend() {
    assert_eq!(monotonic_of(&[7, 7]), Monotonic::NotMonotonic);
    assert_eq!(monotonic_of(&[0, 0, 0, 0, 0]), Monotonic::NotMonotonic);
}

#[test]
fn two_rising_elements_are_strict() {
    assert_eq!(monotonic_of(&[1, 2]), Monotonic::Rising { strict: true });
    assert_eq!(monotonic_of(&[2, 1]), Monotonic::Falling { strict: true });
}

#[test]
fn plateau_at_end_makes_rising_non_strict() {
    assert_eq!(monotonic_of(&[1, 2, 3, 3]), Monotonic::Rising { strict: false });
}

#[test]
fn falling_after_flat_start_is_non_strict() {
    assert_eq!(monotonic_of(&[9, 9, 8, 1]), Monotonic::Falling { strict: false });
}

#[test]
fn fall_then_rise_has_no_trend() {
    assert_eq!(monotonic_of(&[3, 1, 2]), Monotonic::NotMonotonic);
    assert_eq!(monotonic_of(&[3, 3, 1, 1, 2]), Monotonic::NotMonotonic);
}

#[test]
fn rise_then_fall_has_no_trend() {
    assert_eq!(monotonic_of(&[1, 3, 2]), Monotonic::NotMonotonic);
}

#[test]
fn reversal_mirrors_strict_rising() {
    let data = vec![5, 4, 3, 2, 1];
    assert_eq!(data.monotonic_prop(), Monotonic::Falling { strict: true });
    assert_eq!(monotonic_of_reversed(&data), Monotonic::Rising { strict: true });
}

#[test]
fn reversal_mirrors_non_strict_trends() {
    let data = vec![1, 2, 2, 5];
    assert_eq!(monotonic_of(&data), Monotonic::Rising { strict: false });
    assert_eq!(monotonic_of_reversed(&data), Monotonic::Falling { strict: false });
    let down = vec![8, 8, 3];
    assert_eq!(monotonic_of(&down), Monotonic::Falling { strict: false });
    assert_eq!(monotonic_of_reversed(&down), Monotonic::Rising { strict: false });
}

#[test]
fn reversal_keeps_no_trend() {
    let data = vec![1, 2, 3, 2, 4, 5];
    assert_eq!(monotonic_of(&data), Monotonic::NotMonotonic);
    assert_eq!(monotonic_of_reversed(&data), Monotonic::NotMonotonic);
    assert_eq!(monotonic_of_reversed(&[1, 1, 1]), Monotonic::NotMonotonic);
}

#[test]
fn extreme_values_compare_exactly() {
    assert_eq!(monotonic_of(&[i64::MIN, 0, i64::MAX]), Monotonic::Rising { strict: true });
    assert_eq!(monotonic_of(&[u64::MAX, u64::MAX, 0]), Monotonic::Falling { strict: false });
}

#[test]
fn strings_are_classified_by_their_order() {
    let words = vec!["apple", "banana", "cherry"];
    assert_eq!(words.monotonic_prop(), Monotonic::Rising { strict: true });
}
