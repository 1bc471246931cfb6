use replicest::codec::{f64_bits_to_u8, u8_to_f64_bits};
use replicest::estimates::QuantileType;
use replicest::external::Estimate;
use replicest::protocol::{
    is_f64_literal_token, parse_message, parse_usize_token, trim_buffer, Command,
};

#[test]
fn test_u8_to_vec() {
    let result = u8_to_f64_bits(&b"abcabcabcabcabcabcabcabc".to_vec(), 3);
    assert!(result.is_ok());

    let floats = vec![1.5, 2.0, -3.2, 14.44, -7.1, f64::NAN];

    let bytes: Vec<u8> = floats.iter().flat_map(|v| v.to_ne_bytes()).collect();

    let result = u8_to_f64_bits(&bytes, 2).unwrap();

    for (i, &v) in floats.iter().enumerate() {
        if v.is_nan() {
            assert!(f64::from_bits(result[i]).is_nan());
        } else {
            assert_eq!(v, f64::from_bits(result[i]));
        }
    }
}

#[test]
fn test_u8_to_f64_vec_wrong_length() {
    let result = u8_to_f64_bits(&b"abcdeabcdeabcdeabcdeabcde".to_vec(), 3);
    assert!(result.is_err());
    assert_eq!(
        "Length of data was not a multiple of 8 * columns",
        result.err().unwrap().message()
    );
}

#[test]
fn test_byte_round_trip_preserves_every_value() {
    let floats = vec![0.0, -0.0, 1.5, -3.25, f64::INFINITY, f64::NEG_INFINITY, f64::NAN, 5e-324];
    let bits: Vec<u64> = floats.iter().map(|v| v.to_bits()).collect();

    let bytes = f64_bits_to_u8(&bits);
    assert_eq!(bytes.len(), 8 * bits.len());

    let decoded = u8_to_f64_bits(&bytes, 2).unwrap();
    assert_eq!(bits, decoded);

    let encoded_again = f64_bits_to_u8(&decoded);
    assert_eq!(bytes, encoded_again);
}

#[test]
fn test_trim_buffer() {
    let mut buf = [0u8; 1024];
    buf[0] = 0x61;
    buf[1] = 0x62;
    buf[2] = 0x63;
    buf[3] = 0x20;
    let result = trim_buffer(&buf);

    assert_eq!(b"abc".to_vec(), result);
}

#[test]
fn test_parse_data_message() {
    assert!(matches!(parse_message(b"data"), Command::DataUsage));

    assert!(matches!(parse_message(b"data a 1"), Command::DataUsage));

    match parse_message(b"data 5 15") {
        Command::Data { n_imputations, n_columns } => {
            assert_eq!((5, 15), (n_imputations, n_columns));
        },
        _ => panic!("expected a data command"),
    }
}

#[test]
fn test_parse_replicate_weights_message() {
    assert!(matches!(parse_message(b"replicate weights"), Command::ReplicateWeightsUsage));

    assert!(matches!(parse_message(b"replicate weights abc"), Command::ReplicateWeightsUsage));

    match parse_message(b"replicate weights 80") {
        Command::ReplicateWeights { n_columns } => assert_eq!(80, n_columns),
        _ => panic!("expected a replicate weights command"),
    }

    assert!(matches!(parse_message(b"replicate weights x"), Command::ReplicateWeightsUsage));
}

#[test]
fn test_parse_set_variance_adjustment_factor_message() {
    assert!(matches!(
        parse_message(b"set variance adjustment factor"),
        Command::SetVarianceAdjustmentFactorUsage
    ));

    assert!(matches!(
        parse_message(b"set variance adjustment factor abc"),
        Command::SetVarianceAdjustmentFactorUsage
    ));

    match parse_message(b"set variance adjustment factor 0.25") {
        Command::SetVarianceAdjustmentFactor { factor_token } => {
            assert_eq!(b"0.25".to_vec(), factor_token);
            assert_eq!(0.25, String::from_utf8(factor_token).unwrap().parse::<f64>().unwrap());
        },
        _ => panic!("expected a factor command"),
    }

    match parse_message(b"set variance adjustment factor 0.5000") {
        Command::SetVarianceAdjustmentFactor { factor_token } => {
            assert_eq!(0.5, String::from_utf8(factor_token).unwrap().parse::<f64>().unwrap());
        },
        _ => panic!("expected a factor command"),
    }
}

#[test]
fn test_parse_set_quantiles_message() {
    assert!(matches!(parse_message(b"set quantiles"), Command::SetQuantilesUsage));

    assert!(matches!(parse_message(b"set quantiles 0.5 a"), Command::SetQuantilesUsage));

    match parse_message(b"set quantiles 0.10 0.25 0.50 0.75 0.90") {
        Command::SetQuantiles { quantile_tokens } => {
            assert_eq!(quantile_tokens.len(), 5);
            assert_eq!(b"0.10".to_vec(), quantile_tokens[0]);
            assert_eq!(b"0.90".to_vec(), quantile_tokens[4]);
        },
        _ => panic!("expected a set quantiles command"),
    }
}

#[test]
fn test_parse_quantile_type_message() {
    assert!(matches!(parse_message(b"quantile type"), Command::SetQuantileTypeUsage));

    assert!(matches!(parse_message(b"quantile type dumb"), Command::SetQuantileTypeUsage));

    match parse_message(b"quantile type interpolation") {
        Command::SetQuantileType { quantile_type } => {
            assert_eq!(QuantileType::Interpolation, quantile_type);
        },
        _ => panic!("expected a quantile type command"),
    }

    match parse_message(b"quantile typer interpolation") {
        Command::SetQuantileType { quantile_type } => {
            assert_eq!(QuantileType::Interpolation, quantile_type);
        },
        _ => panic!("expected a quantile type command"),
    }

    match parse_message(b"quantile type upper") {
        Command::SetQuantileType { quantile_type } => {
            assert_eq!(QuantileType::Upper, quantile_type);
        },
        _ => panic!("expected a quantile type command"),
    }
}

#[test]
fn test_parse_with_intercept_message() {
    assert!(matches!(parse_message(b"with intercept"), Command::WithInterceptUsage));

    assert!(matches!(parse_message(b"with intercept dumb"), Command::WithInterceptUsage));

    match parse_message(b"with intercept false") {
        Command::WithIntercept { intercept } => assert_eq!(false, intercept),
        _ => panic!("expected a with intercept command"),
    }

    match parse_message(b"with intercept true") {
        Command::WithIntercept { intercept } => assert_eq!(true, intercept),
        _ => panic!("expected a with intercept command"),
    }
}

#[test]
fn test_parse_estimator_and_plain_messages() {
    assert!(matches!(
        parse_message(b"mean"),
        Command::SetEstimate { estimate: Estimate::Mean }
    ));
    assert!(matches!(
        parse_message(b"correlation"),
        Command::SetEstimate { estimate: Estimate::Correlation }
    ));
    assert!(matches!(
        parse_message(b"linear regression"),
        Command::SetEstimate { estimate: Estimate::LinearRegression }
    ));
    assert!(matches!(
        parse_message(b"quantiles"),
        Command::SetEstimate { estimate: Estimate::Quantiles }
    ));
    assert!(matches!(
        parse_message(b"frequencies"),
        Command::SetEstimate { estimate: Estimate::Frequencies }
    ));
    assert!(matches!(parse_message(b"weights"), Command::Weights));
    assert!(matches!(parse_message(b"calculate"), Command::Calculate));
    assert!(matches!(parse_message(b"anything else"), Command::Unknown));
}

#[test]
fn test_usize_tokens() {
    assert_eq!(Some(0), parse_usize_token(b"0"));
    assert_eq!(Some(80), parse_usize_token(b"80"));
    assert_eq!(Some(80), parse_usize_token(b"+80"));
    assert_eq!(None, parse_usize_token(b""));
    assert_eq!(None, parse_usize_token(b"+"));
    assert_eq!(None, parse_usize_token(b"-1"));
    assert_eq!(None, parse_usize_token(b"8a"));
    assert_eq!(None, parse_usize_token(b"99999999999999999999999999"));
    assert_eq!(Some(usize::MAX), parse_usize_token(format!("{}", usize::MAX).as_bytes()));
}

#[test]
fn test_f64_literal_tokens() {
    // agree with f64::from_str on a spread of shapes
    let accepted = [
        "0.25", "1", "-1", "+1.5", ".5", "5.", "1e5", "1.5e-3", "2E+8", "inf", "-inf", "Infinity",
        "NaN", "nan", "3.", ".5e2",
    ];
    for t in accepted {
        assert!(is_f64_literal_token(t.as_bytes()), "{} should be accepted", t);
        assert!(t.parse::<f64>().is_ok(), "{} should parse", t);
    }
    let rejected = ["", "a", "1.5.2", ".", "e5", "1e", "1e+", "--1", "0x10", "1 5", "in", "nanx"];
    for t in rejected {
        assert!(!is_f64_literal_token(t.as_bytes()), "{} should be rejected", t);
        assert!(t.parse::<f64>().is_err(), "{} should not parse", t);
    }
}

#[test]
fn test_empty_and_spaced_messages() {
    assert!(matches!(parse_message(b""), Command::Unknown));
    // a doubled space yields an empty token, as str::split(" ") does
    assert!(matches!(parse_message(b"data  5"), Command::DataUsage));
    assert!(matches!(parse_message(b"data 5 15 7"), Command::DataUsage));
    assert!(matches!(parse_message(b"database 5 15"), Command::Data { .. }));
}

#[test]
fn test_trim_buffer_empty_and_whitespace() {
    assert_eq!(Vec::<u8>::new(), trim_buffer(&[0u8; 16]));
    assert_eq!(b"a".to_vec(), trim_buffer(b"a \t\r\n\0\0"));
    assert_eq!(Vec::<u8>::new(), trim_buffer(b""));
}
