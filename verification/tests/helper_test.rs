use replicest::bits::{lt_value_bits, eq_value_bits, NAN_BITS};
use replicest::helper::{get_keys_vector, split_vector_by};
use replicest::matrix::Matrix;

fn bits_of(values: &[f64]) -> Vec<u64> {
    values.iter().map(|v| v.to_bits()).collect()
}

fn matrix_of(nrows: usize, ncols: usize, values: &[f64]) -> Matrix {
    Matrix::from_row_slice(nrows, ncols, &bits_of(values))
}

fn key_of(values: &[f64]) -> Vec<u64> {
    values
        .iter()
        .map(|v| if v.is_nan() { NAN_BITS } else { v.to_bits() })
        .collect()
}

fn keys_contain(keys: &[Vec<u64>], key: &[u64]) -> bool {
    keys.iter().any(|k| k.as_slice() == key)
}

#[test]
fn test_extract_lower_triangle() {
    let matrix = matrix_of(3, 3, &[1.0, 2.0, 3.0, 4.0, 5.0, 6.0, 7.0, 8.0, 9.0]);

    let result = matrix.extract_lower_triangle();

    assert_eq!(result, bits_of(&[1.0, 4.0, 7.0, 5.0, 8.0, 9.0]));
}

#[test]
fn test_get_keys() {
    let split_matrix = matrix_of(
        9,
        2,
        &[
            1.0,
            1.0,
            1.0,
            2.0,
            2.0,
            1.0,
            2.0,
            2.0,
            1.0,
            1.0,
            f64::NAN,
            1.0,
            1.0,
            f64::NAN,
            1.0,
            2.0,
            2.0,
            1.0,
        ],
    );

    let result = split_matrix.get_keys();

    assert_eq!(result.len(), 6);
    assert!(keys_contain(&result, &key_of(&[1.0, 2.0])));
    assert!(keys_contain(&result, &key_of(&[1.0, f64::NAN])));
    assert!(!keys_contain(&result, &key_of(&[2.0, f64::NAN])));
}

#[test]
fn test_split_by_single_column() {
    let data = matrix_of(
        5,
        3,
        &[1.0, 2.0, 3.0, 4.0, 5.0, 6.0, 7.0, 8.0, 9.0, 10.0, 11.0, 12.0, 13.0, 14.0, 15.0],
    );

    let split_vector = matrix_of(5, 1, &[1.0, 1.0, 2.0, 2.0, 1.0]);

    let result = data.split_by(&split_vector);
    assert_eq!(2, result.len());
    let ones = result.iter().find(|(k, _)| k.as_slice() == key_of(&[1.0])).unwrap();
    assert_eq!(3, ones.1.nrows());
    assert_eq!(5.0f64.to_bits(), ones.1.get(1, 1));
    assert_eq!(15.0f64.to_bits(), ones.1.get(2, 2));
    let twos = result.iter().find(|(k, _)| k.as_slice() == key_of(&[2.0])).unwrap();
    assert_eq!(2, twos.1.nrows());
    assert_eq!(9.0f64.to_bits(), twos.1.get(0, 2));
}

#[test]
fn test_split_by_two_columns() {
    let data = matrix_of(
        5,
        3,
        &[1.0, 2.0, 3.0, 4.0, 5.0, 6.0, 7.0, 8.0, 9.0, 10.0, 11.0, 12.0, 13.0, 14.0, 15.0],
    );

    let split_vector = matrix_of(5, 2, &[1.0, 1.0, 1.0, 2.0, 2.0, 1.0, 2.0, 2.0, 1.0, 1.0]);

    let result = data.split_by(&split_vector);
    assert_eq!(4, result.len());
    let k11 = result.iter().find(|(k, _)| k.as_slice() == key_of(&[1.0, 1.0])).unwrap();
    assert_eq!(2, k11.1.nrows());
    assert_eq!(14.0f64.to_bits(), k11.1.get(1, 1));
    let k22 = result.iter().find(|(k, _)| k.as_slice() == key_of(&[2.0, 2.0])).unwrap();
    assert_eq!(1, k22.1.nrows());
    assert_eq!(12.0f64.to_bits(), k22.1.get(0, 2));
}

#[test]
fn test_get_keys_dvector() {
    let split_vector = bits_of(&[1.0, 1.0, 2.0, 2.0, 1.0, f64::NAN, 1.0, 1.0, 2.0]);

    let result = get_keys_vector(&split_vector);

    assert_eq!(result.len(), 3);
    assert!(keys_contain(&result, &key_of(&[1.0])));
    assert!(keys_contain(&result, &key_of(&[2.0])));
    assert!(keys_contain(&result, &key_of(&[f64::NAN])));
}

#[test]
fn test_split_dvector() {
    let data = bits_of(&[1.0, 4.0, 7.0, 10.0, 13.0]);

    let split_data = matrix_of(5, 2, &[1.0, 1.0, 1.0, 2.0, 2.0, 1.0, 2.0, 2.0, 1.0, 1.0]);

    let result = split_vector_by(&data, &split_data);
    assert_eq!(4, result.len());
    let k11 = result.iter().find(|(k, _)| k.as_slice() == key_of(&[1.0, 1.0])).unwrap();
    assert_eq!(2, k11.1.len());
    assert_eq!(13.0f64.to_bits(), k11.1[1]);
    let k22 = result.iter().find(|(k, _)| k.as_slice() == key_of(&[2.0, 2.0])).unwrap();
    assert_eq!(1, k22.1.len());
    assert_eq!(10.0f64.to_bits(), k22.1[0]);
}

#[test]
fn test_f64count() {
    let key1 = 2.3f64.to_bits();
    let key2 = 1.8f64.to_bits();
    let key3 = 2.3f64.to_bits();

    assert!(!eq_value_bits(key1, key2));
    assert!(eq_value_bits(key1, key3));

    assert!(lt_value_bits(key2, key1));
    assert!(!lt_value_bits(key1, key3));
    assert!(!lt_value_bits(key3, key1));
}

#[test]
fn test_value_order_with_sign() {
    assert!(lt_value_bits((-1.5f64).to_bits(), 1.5f64.to_bits()));
    assert!(lt_value_bits((-2.5f64).to_bits(), (-1.5f64).to_bits()));
    assert!(!lt_value_bits((-0.0f64).to_bits(), 0.0f64.to_bits()));
    assert!(eq_value_bits((-0.0f64).to_bits(), 0.0f64.to_bits()));
}

#[test]
fn test_ordered_f64_counts() {
    let mut order_weighted_f64_counts = replicest::helper::OrderedF64Counts::new();

    order_weighted_f64_counts.push(2.0f64.to_bits(), 1.0f64.to_bits());
    order_weighted_f64_counts.push(1.0f64.to_bits(), 1.0f64.to_bits());

    let weighted = |w: &Vec<u64>| w.iter().map(|&b| f64::from_bits(b)).sum::<f64>();

    {
        let counts = order_weighted_f64_counts.get_counts();
        assert_eq!(2, counts.len());
        assert!((f64::from_bits(counts[0].get_key()) - 1.0).abs() < f64::EPSILON);
        assert_eq!(counts[0].get_count_cases(), 1);
        assert!((weighted(counts[0].get_weights()) - 1.0).abs() < f64::EPSILON);
        assert!((f64::from_bits(counts[0].get_first_weight()) - 1.0).abs() < f64::EPSILON);
        assert_eq!(order_weighted_f64_counts.get_sum_of_cases(), 2);
    }

    order_weighted_f64_counts.push(1.0f64.to_bits(), 1.5f64.to_bits());
    order_weighted_f64_counts.push(1.5f64.to_bits(), 0.75f64.to_bits());
    order_weighted_f64_counts.push(1.0f64.to_bits(), 1.5f64.to_bits());

    let counts = order_weighted_f64_counts.get_counts();
    assert_eq!(3, counts.len());
    assert!((f64::from_bits(counts[0].get_key()) - 1.0).abs() < f64::EPSILON);
    assert_eq!(counts[0].get_count_cases(), 3);
    assert!((f64::from_bits(counts[0].get_first_weight()) - 1.0).abs() < f64::EPSILON);
    assert!((weighted(counts[0].get_weights()) - 4.0).abs() < f64::EPSILON);
    assert!((f64::from_bits(counts[1].get_key()) - 1.5).abs() < f64::EPSILON);
    assert_eq!(counts[1].get_count_cases(), 1);
    assert!((f64::from_bits(counts[1].get_first_weight()) - 0.75).abs() < f64::EPSILON);
    assert!((weighted(counts[1].get_weights()) - 0.75).abs() < f64::EPSILON);
    assert!((f64::from_bits(counts[2].get_key()) - 2.0).abs() < f64::EPSILON);
    assert_eq!(counts[2].get_count_cases(), 1);
    assert!((f64::from_bits(counts[2].get_first_weight()) - 1.0).abs() < f64::EPSILON);
    assert!((weighted(counts[2].get_weights()) - 1.0).abs() < f64::EPSILON);
}

#[test]
fn test_ordered_f64_counts_with_nan() {
    let mut order_weighted_f64_counts = replicest::helper::OrderedF64Counts::new();

    order_weighted_f64_counts.push(2.0f64.to_bits(), 1.0f64.to_bits());
    order_weighted_f64_counts.push(f64::NAN.to_bits(), 1.0f64.to_bits());

    let counts = order_weighted_f64_counts.get_counts();
    assert_eq!(1, counts.len());
    assert!((f64::from_bits(counts[0].get_key()) - 2.0).abs() < f64::EPSILON);
    let weighted: f64 = counts[0].get_weights().iter().map(|&b| f64::from_bits(b)).sum();
    assert!((weighted - 1.0).abs() < f64::EPSILON);
    assert_eq!(order_weighted_f64_counts.get_sum_of_cases(), 1);
}

#[test]
fn test_weighted_count_values() {
    let data = matrix_of(
        12,
        2,
        &[
            1.0, 4.0, 2.0, 1.0, 1.0, 3.0, 1.0, 4.0, 2.0, 2.0, 1.0, 3.0, 1.0, 4.0, 2.0, 1.0, 1.0,
            3.0, 1.0, 4.0, 2.0, 1.0, 1.0, 3.0,
        ],
    );

    let wgt = bits_of(&[1.0, 0.5, 1.0, 0.5, 1.5, 1.0, 0.5, 1.5, 1.0, 0.5, 1.5, 1.5]);

    let result = replicest::estimates::weighted_count_values(&data, &wgt);
    assert_eq!(2, result.len());

    let weighted = |w: &Vec<u64>| w.iter().map(|&b| f64::from_bits(b)).sum::<f64>();

    let first = result[0].get_counts();
    assert_eq!(2, first.len());
    assert_eq!(1.0f64.to_bits(), first[0].get_key());
    assert_eq!(8, first[0].get_count_cases());
    assert!((weighted(first[0].get_weights()) - 7.0).abs() < f64::EPSILON);
    assert_eq!(2.0f64.to_bits(), first[1].get_key());
    assert_eq!(4, first[1].get_count_cases());
    assert!((weighted(first[1].get_weights()) - 5.0).abs() < f64::EPSILON);

    let second = result[1].get_counts();
    assert_eq!(4, second.len());
    assert_eq!(1.0f64.to_bits(), second[0].get_key());
    assert!((weighted(second[0].get_weights()) - 3.5).abs() < f64::EPSILON);
    assert_eq!(2.0f64.to_bits(), second[1].get_key());
    assert!((weighted(second[1].get_weights()) - 1.5).abs() < f64::EPSILON);
    assert_eq!(3.0f64.to_bits(), second[2].get_key());
    assert!((weighted(second[2].get_weights()) - 4.5).abs() < f64::EPSILON);
    assert_eq!(4.0f64.to_bits(), second[3].get_key());
    assert!((weighted(second[3].get_weights()) - 2.5).abs() < f64::EPSILON);
}

#[test]
fn test_empty_matrix_shapes() {
    let empty = Matrix::zeros(0, 0);
    assert_eq!(0, empty.nrows());
    assert_eq!(0, empty.ncols());
    assert_eq!(0, empty.get_keys().len());
    assert_eq!(0, empty.extract_lower_triangle().len());

    let tall = Matrix::zeros(3, 0);
    assert_eq!(3, tall.nrows());
    assert_eq!(0, tall.ncols());
    // three empty rows carry one (empty) key
    assert_eq!(1, tall.get_keys().len());
    assert_eq!(0, tall.get_keys()[0].len());
}
