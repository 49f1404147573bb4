use ndarray::{Array1, ArrayView1, Axis};
use vector_extensions::{Monotonic, VectorExtensions};

fn elements<T: Clone>(view: ArrayView1<'_, T>) -> Vec<T> {
    view.iter().cloned().collect()
}

fn check<T: PartialOrd + Clone>(data: ArrayView1<'_, T>, expected: Monotonic) {
    let stored = data.to_vec();
    assert_eq!(stored.monotonic_prop(), expected);
    let traversed = elements(data);
    assert_eq!(traversed.as_slice().monotonic_prop(), expected);
}

#[test]
fn test_strict_monotonic_rising_f64() {
    let data: Array1<f64> = Array1::from_vec(vec![1.1, 2.0, 3.123, 4.5]);
    check(data.view(), Monotonic::Rising { strict: true });
}

#[test]
fn test_monotonic_rising_f64() {
    let data: Array1<f64> = Array1::from_vec(vec![1.1, 2.0, 3.123, 3.123, 4.5]);
    check(data.view(), Monotonic::Rising { strict: false });
}

#[test]
fn test_strict_monotonic_falling_f64() {
    let data: Array1<f64> = Array1::from_vec(vec![5.8, 4.123, 3.1, 2.0, 1.0]);
    check(data.view(), Monotonic::Falling { strict: true });
}

#[test]
fn test_monotonic_falling_f64() {
    let data: Array1<f64> = Array1::from_vec(vec![5.8, 4.123, 3.1, 3.1, 2.0, 1.0]);
    check(data.view(), Monotonic::Falling { strict: false });
}

#[test]
fn test_not_monotonic_f64() {
    let data: Array1<f64> = Array1::from_vec(vec![1.1, 2.0, 3.123, 3.120, 4.5]);
    check(data.view(), Monotonic::NotMonotonic);
}

#[test]
fn test_strict_monotonic_rising_i32() {
    let data: Array1<i32> = Array1::from_vec(vec![1, 2, 3, 4, 5]);
    check(data.view(), Monotonic::Rising { strict: true });
}

#[test]
fn test_monotonic_rising_i32() {
    let data: Array1<i32> = Array1::from_vec(vec![1, 2, 3, 3, 4, 5]);
    check(data.view(), Monotonic::Rising { strict: false });
}

#[test]
fn test_strict_monotonic_falling_i32() {
    let data: Array1<i32> = Array1::from_vec(vec![5, 4, 3, 2, 1]);
    check(data.view(), Monotonic::Falling { strict: true });
}

#[test]
fn test_monotonic_falling_i32() {
    let data: Array1<i32> = Array1::from_vec(vec![5, 4, 3, 3, 2, 1]);
    check(data.view(), Monotonic::Falling { strict: false });
}

#[test]
fn test_not_monotonic_i32() {
    let data: Array1<i32> = Array1::from_vec(vec![1, 2, 3, 2, 4, 5]);
    check(data.view(), Monotonic::NotMonotonic);
}

#[test]
fn test_ordered_view_on_unordred_array() {
    let data: Array1<i32> = Array1::from_vec(vec![5, 4, 3, 2, 1]);
    let mut ordered = data.view();
    ordered.invert_axis(Axis(0));
    check(ordered, Monotonic::Rising { strict: true });
}

#[test]
fn test_starting_flat() {
    let data: Array1<i32> = Array1::from_vec(vec![1, 1, 2, 3, 4, 5]);
    check(data.view(), Monotonic::Rising { strict: false });
}

#[test]
fn test_flat() {
    let data: Array1<i32> = Array1::from_vec(vec![1, 1, 1]);
    check(data.view(), Monotonic::NotMonotonic);
}

#[test]
fn test_one_element_array() {
    let data: Array1<i32> = Array1::from_vec(vec![1]);
    check(data.view(), Monotonic::NotMonotonic);
}
