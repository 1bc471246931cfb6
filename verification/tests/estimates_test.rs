use replicest::errors::{DataLengthError, InconsistencyError, MissingElementError};
use replicest::estimates::{
    correlation_parameter_names, linreg_parameter_names, mean_parameter_names,
    quantile_parameter_names, weights_all_numeric, Estimates,
};
use replicest::replication::{replication_lengths_ok, ReplicatedEstimates};

#[test]
fn test_mean_parameter_names() {
    let names = mean_parameter_names(4);
    assert_eq!(names.len(), 4);
    assert_eq!(names[1], "mean_x2");
    assert_eq!(vec!["mean_x1", "mean_x2", "mean_x3", "mean_x4"], names);
}

#[test]
fn test_correlation_parameter_names() {
    let names = correlation_parameter_names(5);
    assert_eq!(names.len(), 30);
    assert_eq!(names[3], "covariance_x1_x4");
    assert_eq!(names[29], "correlation_x5_x5");
    assert_eq!(names[0], "covariance_x1_x1");
    assert_eq!(names[15], "correlation_x1_x1");

    let names3 = correlation_parameter_names(3);
    assert_eq!(names3.len(), 12);
    assert_eq!(names3[2], "covariance_x1_x3");
}

#[test]
fn test_linreg_parameter_names() {
    let without_intercept = linreg_parameter_names(2, false);
    assert_eq!(
        vec!["linreg_b_X1", "linreg_sigma", "linreg_R2", "linreg_beta_X1"],
        without_intercept
    );

    let with_intercept = linreg_parameter_names(3, true);
    assert_eq!(
        vec![
            "linreg_b_intercept",
            "linreg_b_X1",
            "linreg_b_X2",
            "linreg_sigma",
            "linreg_R2",
            "linreg_beta_X1",
            "linreg_beta_X2",
        ],
        with_intercept
    );
}

#[test]
fn test_quantile_parameter_names() {
    let labels = vec!["0.25".to_string(), "0.5".to_string(), "0.75".to_string()];
    let names = quantile_parameter_names(2, &labels);
    assert_eq!(
        vec![
            "quantile_x1_0.25",
            "quantile_x1_0.5",
            "quantile_x1_0.75",
            "quantile_x2_0.25",
            "quantile_x2_0.5",
            "quantile_x2_0.75",
        ],
        names
    );
}

#[test]
fn test_name_stability_across_evaluations() {
    // the names depend on the estimator configuration and the column count
    // alone, so any two evaluations of equal width report equal names
    assert_eq!(mean_parameter_names(4), mean_parameter_names(4));
    assert_eq!(correlation_parameter_names(5), correlation_parameter_names(5));
    assert_eq!(linreg_parameter_names(3, true), linreg_parameter_names(3, true));
}

#[test]
fn test_weights_all_numeric() {
    let clean = vec![1.0f64.to_bits(), 0.5f64.to_bits(), 1.5f64.to_bits()];
    assert!(weights_all_numeric(&clean));

    let with_nan = vec![1.0f64.to_bits(), 0.5f64.to_bits(), f64::NAN.to_bits()];
    assert!(!weights_all_numeric(&with_nan));
}

#[test]
fn test_estimates_holds_names_and_values() {
    let names = mean_parameter_names(2);
    let values = vec![2.25f64.to_bits(), 3.125f64.to_bits()];
    let estimates = Estimates::new(names, values);

    assert_eq!(estimates.parameter_names()[1], "mean_x2");
    assert_eq!(f64::from_bits(estimates.estimates()[0]), 2.25);
}

#[test]
fn test_replicated_estimates_holds_five_vectors() {
    let names = mean_parameter_names(2);
    let fe = vec![2.25f64.to_bits(), 3.125f64.to_bits()];
    let sv = vec![0.0f64.to_bits(), 0.0f64.to_bits()];
    let iv = vec![0.0f64.to_bits(), 0.0f64.to_bits()];
    let se = vec![0.0f64.to_bits(), 0.0f64.to_bits()];
    let result = ReplicatedEstimates::new(names, fe, sv, iv, se);

    assert_eq!(result.parameter_names()[0], "mean_x1");
    assert_eq!(f64::from_bits(result.final_estimates()[1]), 3.125);
    assert_eq!(f64::from_bits(result.sampling_variances()[0]), 0.0);
    assert_eq!(f64::from_bits(result.imputation_variances()[0]), 0.0);
    assert_eq!(f64::from_bits(result.standard_errors()[0]), 0.0);
}

#[test]
fn test_replication_length_rule() {
    assert!(replication_lengths_ok(3, 1, 1));
    assert!(replication_lengths_ok(3, 3, 3));
    assert!(replication_lengths_ok(3, 1, 3));
    assert!(!replication_lengths_ok(3, 2, 1));
    assert!(!replication_lengths_ok(3, 3, 4));
    assert!(!replication_lengths_ok(3, 3, 0));
}

#[test]
fn test_error_messages() {
    assert_eq!(
        "Length of data was not a multiple of 8 * columns",
        DataLengthError::new().message()
    );
    assert_eq!(
        "Analysis is missing some element: data",
        MissingElementError::new("data").message()
    );
    assert_eq!(
        "Inconsistency in analysis: unequal number of rows for data and weights",
        InconsistencyError::new("unequal number of rows for data and weights").message()
    );
}
