use replicest::analysis::{analysis, CalculationPlan, EstimatorConfig, GroupKey, Imputation, Quantile};
use replicest::bits::ONE_BITS;
use replicest::matrix::Matrix;

fn bits_of(values: &[f64]) -> Vec<u64> {
    values.iter().map(|v| v.to_bits()).collect()
}

fn matrix_of(nrows: usize, ncols: usize, values: &[f64]) -> Matrix {
    Matrix::from_row_slice(nrows, ncols, &bits_of(values))
}

fn quantiles_of(values: &[f64]) -> Vec<Quantile> {
    values
        .iter()
        .map(|v| Quantile { bits: v.to_bits(), label: format!("{}", v) })
        .collect()
}

fn sum_label(weights: &[f64]) -> String {
    format!("{}", weights.iter().sum::<f64>())
}

#[test]
fn test_for_data() {
    let data1 = matrix_of(3, 3, &[537.0, 456.2, 501.7, 499.1, 433.2, 500.6, 611.0, 501.9, 588.2]);

    let mut analysis1 = analysis();
    analysis1.for_data(Imputation::No(&data1));

    assert_eq!(
        "none (1 datasets with 3 cases; wgt missing; no replicate weights)",
        analysis1.summary("", "")
    );

    let data2imp1 = matrix_of(
        4,
        3,
        &[537.0, 456.2, 501.7, 499.1, 433.2, 500.6, 611.0, 501.9, 588.2, 534.7, 479.9, 512.4],
    );
    let data2imp2 = matrix_of(
        4,
        3,
        &[538.0, 456.2, 501.7, 490.1, 433.2, 500.6, 612.0, 501.9, 588.2, 533.7, 479.9, 512.4],
    );
    let data2imp3 = matrix_of(
        4,
        3,
        &[537.0, 457.2, 501.7, 499.1, 432.2, 500.6, 611.0, 503.9, 588.2, 534.7, 475.9, 512.4],
    );
    let data2: Vec<&Matrix> = vec![&data2imp1, &data2imp2, &data2imp3];

    let mut analysis2 = analysis();
    analysis2.for_data(Imputation::Yes(&data2));

    assert_eq!(
        "none (3 datasets with 4 cases; wgt missing; no replicate weights)",
        analysis2.summary("", "")
    );
}

#[test]
fn test_group_by() {
    let groups1 = matrix_of(3, 2, &[1.0, 1.0, 2.0, 1.0, 1.0, 2.0]);

    let mut analysis1 = analysis();
    analysis1.group_by(Imputation::No(&groups1));

    assert_eq!(
        "none by 2 grouping columns (no data; wgt missing; no replicate weights)",
        analysis1.summary("", "")
    );

    let groups2imp1 = matrix_of(4, 1, &[1.0, 1.0, 2.0, 2.0]);
    let groups2imp2 = matrix_of(4, 1, &[1.0, 1.0, 1.0, 2.0]);
    let groups2imp3 = matrix_of(4, 1, &[1.0, 1.0, 2.0, 2.0]);
    let groups2: Vec<&Matrix> = vec![&groups2imp1, &groups2imp2, &groups2imp3];

    let mut analysis2 = analysis();
    analysis2.group_by(Imputation::Yes(&groups2));

    assert_eq!(
        "none by 1 grouping columns (no data; wgt missing; no replicate weights)",
        analysis2.summary("", "")
    );
}

#[test]
fn test_calculate_does_not_work_without_data() {
    let mut analysis1 = analysis();
    analysis1.mean();
    let result = analysis1.calculate();

    assert!(result.is_err());
    assert_eq!("Analysis is missing some element: data", result.err().unwrap().message());

    let mut analysis1 = analysis();
    analysis1.mean();
    let empty: Vec<&Matrix> = Vec::new();
    analysis1.for_data(Imputation::Yes(&empty));
    let result = analysis1.calculate();

    assert!(result.is_err());
    assert_eq!("Analysis is missing some element: data", result.err().unwrap().message());
}

#[test]
fn test_calculate_does_not_work_without_estimate() {
    let data = matrix_of(3, 3, &[537.0, 456.2, 501.7, 499.1, 433.2, 500.6, 611.0, 501.9, 588.2]);

    let mut analysis1 = analysis();
    analysis1.for_data(Imputation::No(&data));
    let result = analysis1.calculate();

    assert!(result.is_err());
    assert_eq!("Analysis is missing some element: estimate", result.err().unwrap().message());
}

#[test]
fn test_calculate_does_not_work_with_unequal_rows_between_data_and_weights() {
    let data = matrix_of(3, 3, &[537.0, 456.2, 501.7, 499.1, 433.2, 500.6, 611.0, 501.9, 588.2]);

    let wgt = bits_of(&[1.0, 2.0]);

    let mut analysis1 = analysis();
    analysis1.for_data(Imputation::No(&data));
    analysis1.set_weights(&wgt);
    analysis1.mean();
    let result = analysis1.calculate();

    assert!(result.is_err());
    assert_eq!(
        "Inconsistency in analysis: unequal number of rows for data and weights",
        result.err().unwrap().message()
    );
}

#[test]
fn test_calculate_works_without_weights() {
    let data = matrix_of(3, 3, &[537.0, 456.2, 501.7, 499.1, 433.2, 502.9, 611.0, 501.9, 589.3]);

    let mut analysis1 = analysis();
    analysis1.for_data(Imputation::No(&data));
    analysis1.mean();
    let result = analysis1.calculate();

    assert!(result.is_ok());
    let plan: CalculationPlan = result.unwrap();

    assert_eq!(1, plan.groups.len());
    assert!(matches!(plan.groups[0].key, GroupKey::Overall));
    assert!(matches!(plan.estimator, EstimatorConfig::Mean));
    assert_eq!(1, plan.groups[0].x.len());
    assert_eq!(3, plan.groups[0].x[0].nrows());
    assert_eq!(1, plan.groups[0].wgt.len());
    assert_eq!(vec![ONE_BITS, ONE_BITS, ONE_BITS], plan.groups[0].wgt[0]);
    assert_eq!(1, plan.groups[0].repwgts.len());
    assert_eq!(3, plan.groups[0].repwgts[0].nrows());
    assert_eq!(0, plan.groups[0].repwgts[0].ncols());
}

#[test]
fn test_calculate_works_for_mean_with_groups_same() {
    let data0 = matrix_of(
        6,
        4,
        &[
            1.0, 4.0, 2.5, -1.0, 2.5, 1.75, 4.0, -2.5, 3.0, 3.0, 1.0, -3.5, 1.0, 4.0, 2.5, -1.0,
            2.5, 1.75, 4.0, -2.5, 3.0, 3.0, 1.0, -3.5,
        ],
    );

    let wgt = bits_of(&[1.0, 0.5, 1.5, 1.0, 0.5, 1.5]);
    let rep_wgts = matrix_of(
        6,
        6,
        &[
            0.0, 1.0, 1.0, 0.0, 1.0, 1.0, 0.5, 0.0, 0.5, 0.5, 0.0, 0.5, 1.5, 1.5, 0.0, 1.5, 1.5,
            0.0, 0.0, 1.0, 1.0, 0.0, 1.0, 1.0, 0.5, 0.0, 0.5, 0.5, 0.0, 0.5, 1.5, 1.5, 0.0, 1.5,
            1.5, 0.0,
        ],
    );

    let groups = matrix_of(6, 1, &[1.0, 1.0, 1.0, 2.0, 2.0, 2.0]);

    let mut current = analysis();
    current.for_data(Imputation::No(&data0));
    current.set_weights(&wgt);
    current.with_replicate_weights(&rep_wgts);
    current.set_variance_adjustment_factor(0.5f64.to_bits());
    current.mean();
    current.group_by(Imputation::No(&groups));
    let result = current.calculate();

    assert!(result.is_ok());
    let plan = result.unwrap();

    assert_eq!(0.5f64.to_bits(), plan.variance_adjustment_factor);
    assert_eq!(2, plan.groups.len());

    let first = &plan.groups[0];
    match &first.key {
        GroupKey::Cells(cells) => assert_eq!(&bits_of(&[1.0]), cells),
        GroupKey::Overall => panic!("expected a grouped key"),
    }
    assert_eq!(1, first.x.len());
    assert_eq!(3, first.x[0].nrows());
    assert_eq!(4, first.x[0].ncols());
    assert_eq!(1.75f64.to_bits(), first.x[0].get(1, 1));
    assert_eq!(1, first.wgt.len());
    assert_eq!(bits_of(&[1.0, 0.5, 1.5]), first.wgt[0]);
    assert_eq!(1, first.repwgts.len());
    assert_eq!(3, first.repwgts[0].nrows());
    assert_eq!(6, first.repwgts[0].ncols());

    let second = &plan.groups[1];
    match &second.key {
        GroupKey::Cells(cells) => assert_eq!(&bits_of(&[2.0]), cells),
        GroupKey::Overall => panic!("expected a grouped key"),
    }
    assert_eq!(1, second.x.len());
    assert_eq!(3, second.x[0].nrows());
}

#[test]
fn test_calculate_works_for_mean_with_groups_different() {
    let base = [1.0, 2.0, 3.0, 4.0, 5.0, 6.0, 7.0, 8.0, 9.0, 10.0];
    let data0 = matrix_of(10, 1, &base);
    let data1 = matrix_of(10, 1, &base);
    let data2 = matrix_of(10, 1, &base);
    let data3 = matrix_of(10, 1, &base);
    let imp_data: Vec<&Matrix> = vec![&data0, &data1, &data2, &data3];

    let group0 = matrix_of(10, 1, &[1.0, 0.0, 1.0, 0.0, 1.0, 0.0, 1.0, 0.0, 1.0, 0.0]);
    let group1 = matrix_of(10, 1, &[1.0, 0.0, 0.0, 0.0, 0.0, 0.0, 1.0, 0.0, 1.0, 0.0]);
    let group2 = matrix_of(10, 1, &[1.0, 0.0, 1.0, 1.0, 1.0, 0.0, 1.0, 0.0, 1.0, 0.0]);
    let group3 = matrix_of(10, 1, &[1.0, 0.0, 0.0, 1.0, 0.0, 0.0, 1.0, 0.0, 1.0, 0.0]);
    let imp_groups: Vec<&Matrix> = vec![&group0, &group1, &group2, &group3];

    let wgts = bits_of(&[1.0, 1.0, 1.25, 1.25, 1.5, 1.5, 1.75, 1.75, 2.0, 2.0]);

    let rep_wgts = matrix_of(
        10,
        5,
        &[
            2.0, 1.0, 1.0, 1.0, 1.0, 0.0, 1.0, 1.0, 1.0, 1.0, 1.25, 2.5, 1.25, 1.25, 1.25, 1.25,
            0.0, 1.25, 1.25, 1.25, 1.5, 1.5, 3.0, 1.5, 1.5, 1.5, 1.5, 0.0, 1.5, 1.5, 1.75, 1.75,
            1.75, 3.5, 1.75, 1.75, 1.75, 1.75, 0.0, 1.75, 2.0, 2.0, 2.0, 2.0, 4.0, 2.0, 2.0, 2.0,
            2.0, 0.0,
        ],
    );

    let mut current = analysis();
    current.mean();
    current.for_data(Imputation::Yes(&imp_data));
    current.set_weights(&wgts);
    current.with_replicate_weights(&rep_wgts);
    current.group_by(Imputation::Yes(&imp_groups));

    let result = current.calculate();

    assert!(result.is_ok());
    let plan = result.unwrap();
    assert_eq!(2, plan.groups.len());

    let ones = plan
        .groups
        .iter()
        .find(|g| matches!(&g.key, GroupKey::Cells(c) if c == &bits_of(&[1.0])))
        .unwrap();
    // every imputation holds group "1", with differing membership
    assert_eq!(4, ones.x.len());
    assert_eq!(5, ones.x[0].nrows());
    assert_eq!(3, ones.x[1].nrows());
    assert_eq!(6, ones.x[2].nrows());
    assert_eq!(4, ones.x[3].nrows());
    assert_eq!(4, ones.wgt.len());
    assert_eq!(bits_of(&[1.0, 1.25, 1.5, 1.75, 2.0]), ones.wgt[0]);
    assert_eq!(bits_of(&[1.0, 1.75, 2.0]), ones.wgt[1]);
    assert_eq!(4, ones.repwgts.len());
    assert_eq!(5, ones.repwgts[0].nrows());
    assert_eq!(3, ones.repwgts[1].nrows());

    let zeros = plan
        .groups
        .iter()
        .find(|g| matches!(&g.key, GroupKey::Cells(c) if c == &bits_of(&[0.0])))
        .unwrap();
    assert_eq!(4, zeros.x.len());
    assert_eq!(5, zeros.x[0].nrows());
    assert_eq!(7, zeros.x[1].nrows());
}

#[test]
fn test_quantiles_setting() {
    let data = matrix_of(10, 1, &[1.0, 2.0, 3.0, 4.0, 5.0, 6.0, 7.0, 8.0, 9.0, 10.0]);

    let mut current = analysis();
    current.for_data(Imputation::No(&data));
    current.quantiles();

    let labels_of = |plan: &CalculationPlan| -> Vec<String> {
        match &plan.estimator {
            EstimatorConfig::Quantiles { quantiles, .. } => {
                quantiles.iter().map(|q| q.label.clone()).collect()
            },
            _ => panic!("expected the quantile estimator"),
        }
    };

    let plan_default = current.calculate().unwrap();
    let names_default = replicest::estimates::quantile_parameter_names(
        1,
        &labels_of(&plan_default),
    );
    assert_eq!(vec!["quantile_x1_0.25", "quantile_x1_0.5", "quantile_x1_0.75"], names_default);

    current.set_quantiles(quantiles_of(&[0.2, 0.4, 0.6, 0.8]));

    let plan_quintiles = current.calculate().unwrap();
    let names_quintiles = replicest::estimates::quantile_parameter_names(
        1,
        &labels_of(&plan_quintiles),
    );
    assert_eq!(
        vec!["quantile_x1_0.2", "quantile_x1_0.4", "quantile_x1_0.6", "quantile_x1_0.8"],
        names_quintiles
    );

    current.set_quantiles(quantiles_of(&[0.75, 0.25]));
    current.set_quantile_type(replicest::estimates::QuantileType::Lower);

    let plan_lower = current.calculate().unwrap();
    let names_lower = replicest::estimates::quantile_parameter_names(1, &labels_of(&plan_lower));
    assert_eq!(vec!["quantile_x1_0.25", "quantile_x1_0.75"], names_lower);
    match &plan_lower.estimator {
        EstimatorConfig::Quantiles { quantile_type, .. } => {
            assert_eq!(&replicest::estimates::QuantileType::Lower, quantile_type)
        },
        _ => panic!("expected the quantile estimator"),
    }
}

#[test]
fn test_copying() {
    let wgt_values = [1.1, 1.5, 1.3, 1.7, 1.7, 1.0];
    let wgts = bits_of(&wgt_values);

    let mut base_analysis = analysis();
    base_analysis.set_weights(&wgts);

    let mut analysis1 = base_analysis.copy();
    analysis1.mean();

    assert_eq!(
        "none (no data; 6 weights of sum 8.3; no replicate weights)",
        base_analysis.summary(&sum_label(&wgt_values), "")
    );
    assert_eq!(
        "mean (no data; 6 weights of sum 8.3; no replicate weights)",
        analysis1.summary(&sum_label(&wgt_values), "")
    );

    let new_wgt_values = [2.1, 2.5, 2.3, 2.7, 2.7, 2.0];
    let new_wgts = bits_of(&new_wgt_values);
    analysis1.set_weights(&new_wgts);

    assert_eq!(
        "none (no data; 6 weights of sum 8.3; no replicate weights)",
        base_analysis.summary(&sum_label(&wgt_values), "")
    );
    assert_eq!(
        "mean (no data; 6 weights of sum 14.3; no replicate weights)",
        analysis1.summary(&sum_label(&new_wgt_values), "")
    );

    let mut analysis2 = analysis1.copy();

    assert_eq!(
        "mean (no data; 6 weights of sum 14.3; no replicate weights)",
        analysis2.summary(&sum_label(&new_wgt_values), "")
    );

    let data = matrix_of(3, 3, &[537.0, 456.2, 501.7, 499.1, 433.2, 500.6, 611.0, 501.9, 588.2]);
    analysis2.for_data(Imputation::No(&data));
    let analysis3 = analysis2.copy();

    assert_eq!(
        "mean (1 datasets with 3 cases; 6 weights of sum 14.3; no replicate weights)",
        analysis3.summary(&sum_label(&new_wgt_values), "")
    );
}

#[test]
fn test_copying_allows_reproducing_analysis() {
    let data0 = matrix_of(
        3,
        4,
        &[1.0, 4.0, 2.5, -1.0, 2.5, 1.75, 4.0, -2.5, 3.0, 3.0, 1.0, -3.5],
    );
    let data1 = matrix_of(
        3,
        4,
        &[1.2, 4.0, 2.5, -1.0, 2.5, 1.75, 3.9, -2.5, 2.7, 3.0, 1.0, -3.5],
    );
    let data2 = matrix_of(
        3,
        4,
        &[0.8, 4.0, 2.5, -1.0, 2.5, 1.75, 4.1, -2.5, 3.3, 3.0, 1.0, -3.5],
    );
    let imp_data: Vec<&Matrix> = vec![&data0, &data1, &data2];

    let wgt = bits_of(&[1.0, 0.5, 1.5]);

    let mut analysis1 = analysis();
    analysis1.for_data(Imputation::Yes(&imp_data));
    analysis1.set_weights(&wgt);
    analysis1.mean();

    let mut analysis2 = analysis1.copy();

    assert_eq!(1, analysis1.calculate().unwrap().groups.len());
    assert_eq!(1, analysis2.calculate().unwrap().groups.len());

    let mut analysis3 = analysis1.copy();

    assert_eq!(1, analysis3.calculate().unwrap().groups.len());
}

#[test]
fn test_summary_with_factor() {
    let rep_wgts = matrix_of(3, 3, &[1.0, 2.0, 3.0, 4.0, 5.0, 6.0, 7.0, 8.0, 9.0]);

    let mut current = analysis();
    current.with_replicate_weights(&rep_wgts);
    current.set_variance_adjustment_factor(0.5f64.to_bits());

    assert_eq!(
        "none (no data; wgt missing; 3 replicate weights, factor 0.5)",
        current.summary("", &format!("{}", 0.5))
    );
}

#[test]
fn test_calculate_rejects_unequal_replicate_weight_rows() {
    let data = matrix_of(3, 2, &[1.0, 4.0, 2.5, 1.75, 3.0, 3.0]);
    let rep_wgts = matrix_of(2, 3, &[0.0, 1.0, 1.0, 0.5, 0.0, 0.5]);

    let mut current = analysis();
    current.for_data(Imputation::No(&data));
    current.with_replicate_weights(&rep_wgts);
    current.mean();
    let result = current.calculate();

    assert!(result.is_err());
    assert_eq!(
        "Inconsistency in analysis: unequal number of rows for data and replicate weights",
        result.err().unwrap().message()
    );
}

#[test]
fn test_calculate_rejects_mismatched_grouping_count() {
    let data0 = matrix_of(3, 1, &[1.0, 2.0, 3.0]);
    let data1 = matrix_of(3, 1, &[1.5, 2.5, 3.5]);
    let imp_data: Vec<&Matrix> = vec![&data0, &data1];

    let group = matrix_of(3, 1, &[1.0, 1.0, 2.0]);
    let imp_groups: Vec<&Matrix> = vec![&group, &group, &group];

    let mut current = analysis();
    current.for_data(Imputation::Yes(&imp_data));
    current.group_by(Imputation::Yes(&imp_groups));
    current.mean();
    let result = current.calculate();

    assert!(result.is_err());
    assert_eq!(
        "Inconsistency in analysis: number of data sets does not match number of sets with grouping columns",
        result.err().unwrap().message()
    );
}

#[test]
fn test_calculate_rejects_unequal_grouping_rows() {
    let data = matrix_of(3, 1, &[1.0, 2.0, 3.0]);
    let group = matrix_of(2, 1, &[1.0, 2.0]);

    let mut current = analysis();
    current.for_data(Imputation::No(&data));
    current.group_by(Imputation::No(&group));
    current.mean();
    let result = current.calculate();

    assert!(result.is_err());
    assert_eq!(
        "Inconsistency in analysis: unequal number of rows in split_by",
        result.err().unwrap().message()
    );
}

#[test]
fn test_grouping_merges_every_nan_pattern() {
    let data = matrix_of(3, 1, &[10.0, 20.0, 30.0]);
    let mut nan_bits = bits_of(&[f64::NAN, 1.0, f64::NAN]);
    // a second NaN pattern: same exponent, different fraction
    nan_bits[2] = f64::NAN.to_bits() | 1;
    let group = Matrix::from_row_slice(3, 1, &nan_bits);

    let mut current = analysis();
    current.for_data(Imputation::No(&data));
    current.group_by(Imputation::No(&group));
    current.mean();
    let plan = current.calculate().unwrap();

    assert_eq!(2, plan.groups.len());
    let nan_group = plan
        .groups
        .iter()
        .find(|g| matches!(&g.key, GroupKey::Cells(c) if f64::from_bits(c[0]).is_nan()))
        .unwrap();
    assert_eq!(1, nan_group.x.len());
    assert_eq!(2, nan_group.x[0].nrows());
    assert_eq!(10.0f64.to_bits(), nan_group.x[0].get(0, 0));
    assert_eq!(30.0f64.to_bits(), nan_group.x[0].get(1, 0));
}
