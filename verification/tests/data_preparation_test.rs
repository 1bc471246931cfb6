use replicest::data_preparation::listwise_delete;
use replicest::matrix::Matrix;

fn constant_matrix(nrows: usize, ncols: usize, value: f64) -> Matrix {
    Matrix::from_row_slice(nrows, ncols, &vec![value.to_bits(); nrows * ncols])
}

fn all_entries(m: &Matrix, value: f64) -> bool {
    let mut ok = true;
    for r in 0..m.nrows() {
        for c in 0..m.ncols() {
            ok = ok && m.get(r, c) == value.to_bits();
        }
    }
    ok
}

fn row_entries(m: &Matrix, r: usize, value: f64) -> bool {
    let mut ok = true;
    for c in 0..m.ncols() {
        ok = ok && m.get(r, c) == value.to_bits();
    }
    ok
}

fn set_entry(m: &Matrix, r: usize, c: usize, value: f64) -> Matrix {
    let mut values: Vec<u64> = Vec::new();
    for rr in 0..m.nrows() {
        for cc in 0..m.ncols() {
            values.push(if rr == r && cc == c { value.to_bits() } else { m.get(rr, cc) });
        }
    }
    Matrix::from_row_slice(m.nrows(), m.ncols(), &values)
}

#[test]
fn test_listwise_delete_nothing_to_do() {
    let mut x = constant_matrix(10, 10, 1.0);
    let mut weight = vec![1.0f64.to_bits(); 10];
    let mut repweights = constant_matrix(10, 10, 1.0);

    listwise_delete(&mut x, &mut weight, &mut repweights);

    assert!(all_entries(&x, 1.0));
    assert!(weight.iter().all(|&w| w == 1.0f64.to_bits()));
    assert!(all_entries(&repweights, 1.0));
}

#[test]
fn test_listwise_delete() {
    let mut x = set_entry(&constant_matrix(10, 10, 1.0), 2, 3, f64::NAN);
    let mut weight = vec![1.0f64.to_bits(); 10];
    let mut repweights = constant_matrix(10, 10, 1.0);

    listwise_delete(&mut x, &mut weight, &mut repweights);

    assert!(!all_entries(&x, 1.0));
    assert!(row_entries(&x, 2, 0.0));
    assert!(!weight.iter().all(|&w| w == 1.0f64.to_bits()));
    assert_eq!(weight[2], 0.0f64.to_bits());
    assert!(!all_entries(&repweights, 1.0));
    assert!(row_entries(&repweights, 2, 0.0));
}

#[test]
fn test_listwise_delete_without_replicate_weights() {
    let mut x = set_entry(&constant_matrix(10, 10, 1.0), 2, 3, f64::NAN);
    let mut weight = vec![1.0f64.to_bits(); 10];
    let mut repweights = Matrix::zeros(0, 0);

    listwise_delete(&mut x, &mut weight, &mut repweights);

    assert!(!all_entries(&x, 1.0));
    assert!(row_entries(&x, 2, 0.0));
    assert!(!weight.iter().all(|&w| w == 1.0f64.to_bits()));
    assert_eq!(weight[2], 0.0f64.to_bits());
}
