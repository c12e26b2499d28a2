use csv_col_stats::parser::column::ColumnOption;
use csv_col_stats::parser::file::{parse_bytes, parse_reader};
use csv_col_stats::parser::ColStats;
use csv_col_stats::{per_file_budget, Config, CsvColError, Expression, MedianConfig, MedianValue, Stats};

fn find_column<'a>(output: &'a [(String, Stats)], name: &str) -> Option<&'a Stats> {
    output
        .iter()
        .find(|(column, _)| column == name)
        .map(|(_, stats)| stats)
}

fn sketch_median(bins: Option<u32>, values: &[i64]) -> Option<f64> {
    let mut config = sketches_ddsketch::Config::default();
    if let Some(b) = bins {
        config.max_num_bins = b;
    }
    let mut sketch = sketches_ddsketch::DDSketch::new(config);
    for v in values {
        sketch.add(*v as f64);
    }
    sketch.quantile(0.5).unwrap()
}

fn median_f64(stats: &Stats) -> Option<f64> {
    stats.median.as_ref().and_then(|m| match m {
        MedianValue::Exact { low, high } => Some((*low as f64 + *high as f64) / 2.0),
        MedianValue::Approximate { bins, values } => sketch_median(*bins, values),
    })
}

fn mean_f64(stats: &Stats) -> Option<f64> {
    stats.mean_centi.map(|centi| centi as f64 / 100.0)
}

#[test]
fn test_sentinel_only_column_is_absent() {
    let data = "empty,real\n\"\",1\nNaN,2\nnan,3\nnull,4\nN/A,5\n";
    let result = parse_bytes(data.as_bytes(), data.len() as u64, &Config::default()).unwrap();
    assert!(find_column(&result, "empty").is_none());
    assert!(find_column(&result, "real").is_some());
    assert_eq!(result.len(), 1);
}

#[test]
fn test_first_non_numeric_value_excludes_column() {
    // the first non-empty value decides: text first, numbers later
    let data = "mixed,real\nabc,1\n2,2\n3,3\n";
    let result = parse_bytes(data.as_bytes(), data.len() as u64, &Config::default()).unwrap();
    assert!(find_column(&result, "mixed").is_none());
    let real = find_column(&result, "real").unwrap();
    assert_eq!(real.min, Some(1));
    assert_eq!(real.max, Some(3));
}

#[test]
fn test_ignored_column_never_errors() {
    // garbage in an ignored column raises no column-type violation,
    // and the column never appears in the output
    let data = "id,v\n7,1\nbroken!,2\n99,3\n";
    let mut config = Config::default();
    config.data_config.ignore_columns = vec!["id".to_string()];
    let result = parse_bytes(data.as_bytes(), data.len() as u64, &config).unwrap();
    assert!(find_column(&result, "id").is_none());
    let v = find_column(&result, "v").unwrap();
    assert_eq!(v.min, Some(1));
    assert_eq!(v.max, Some(3));
}

#[test]
fn test_filtered_values_do_not_count() {
    let data = "value\n5\n20\n8\n30\n";
    let mut config = Config::default();
    config.data_config.filter = Some(Expression::from_str("value > 10").unwrap());
    let result = parse_reader(data.as_bytes(), &config).unwrap();
    match result.first() {
        Some((_, ColumnOption::FilteredNumber(stat, _))) => {
            assert_eq!(stat.count, 2);
            assert_eq!(stat.min, Some(20));
            assert_eq!(stat.max, Some(30));
        }
        _ => panic!("column should be promoted to its filtered numeric state"),
    }
}

#[test]
fn test_literal_side_is_preserved() {
    // "10 < value" means 10 < value, not value < 10
    let data = "value\n5\n20\n";
    let mut config = Config::default();
    config.data_config.filter = Some(Expression::from_str("10 < value").unwrap());
    let result = parse_reader(data.as_bytes(), &config).unwrap();
    match result.first() {
        Some((_, ColumnOption::FilteredNumber(stat, _))) => {
            assert_eq!(stat.count, 1);
            assert_eq!(stat.min, Some(20));
        }
        _ => panic!("column should be promoted to its filtered numeric state"),
    }
}

#[test]
fn test_mean_rounds_to_two_decimals() {
    let config = MedianConfig::default();
    let mut stats = ColStats::new(&config);
    stats.update(10).unwrap();
    stats.update(30).unwrap();
    stats.update(25).unwrap();
    let finalized = stats.finalize();
    assert_eq!(finalized.mean_centi, Some(2167));
    assert_eq!(mean_f64(&finalized), Some(21.67));
}

#[test]
fn test_approximate_median_within_relative_error() {
    let mut data = String::from("value\n");
    for v in 1..=1000i64 {
        data.push_str(&v.to_string());
        data.push('\n');
    }
    let size = data.len() as u64;

    let mut exact_config = Config::default();
    exact_config.median_config.memory_budget = usize::MAX;
    let exact_result = parse_bytes(data.as_bytes(), size, &exact_config).unwrap();
    let exact = median_f64(find_column(&exact_result, "value").unwrap()).unwrap();

    let mut approx_config = Config::default();
    approx_config.median_config.memory_budget = 1;
    let approx_result = parse_bytes(data.as_bytes(), size, &approx_config).unwrap();
    let stats = find_column(&approx_result, "value").unwrap();
    assert!(matches!(
        stats.median,
        Some(MedianValue::Approximate { .. })
    ));
    let approx = median_f64(stats).unwrap();

    // the sketch's default relative-error guarantee is one percent
    assert!((approx - exact).abs() <= 0.02 * exact.abs() + f64::EPSILON);
}

#[test]
fn test_end_to_end_ignore_id() {
    let data = "id,value1,value2\n1,10,20\n2,30,40\n3,25,35\n";
    let mut config = Config::default();
    config.data_config.ignore_columns = vec!["id".to_string()];
    let result = parse_bytes(data.as_bytes(), data.len() as u64, &config).unwrap();

    assert_eq!(result.len(), 2);
    // output order follows header order
    assert_eq!(result[0].0, "value1");
    assert_eq!(result[1].0, "value2");

    let value1 = find_column(&result, "value1").unwrap();
    assert_eq!(value1.min, Some(10));
    assert_eq!(value1.max, Some(30));
    assert_eq!(mean_f64(value1), Some(21.67));
    assert_eq!(median_f64(value1), Some(25.));

    let value2 = find_column(&result, "value2").unwrap();
    assert_eq!(value2.min, Some(20));
    assert_eq!(value2.max, Some(40));
    assert_eq!(mean_f64(value2), Some(31.67));
    assert_eq!(median_f64(value2), Some(35.));
}

#[test]
fn test_multiple_inputs_keep_argument_order() {
    let inputs = [
        "alpha\n1\n2\n3\n".to_string(),
        "beta\n10\n20\n".to_string(),
        "gamma\n7\n".to_string(),
    ];
    let budget = per_file_budget(csv_col_stats::DEFAULT_MEMORY_BUDGET, inputs.len());
    let config = Config::new(None, Vec::new(), budget, None);

    let mut results: Vec<Result<Vec<(String, Stats)>, CsvColError>> = Vec::new();
    for input in &inputs {
        results.push(parse_bytes(input.as_bytes(), input.len() as u64, &config));
    }

    assert_eq!(results.len(), 3);
    assert_eq!(results[0].as_ref().unwrap()[0].0, "alpha");
    assert_eq!(results[1].as_ref().unwrap()[0].0, "beta");
    assert_eq!(results[2].as_ref().unwrap()[0].0, "gamma");
}

#[test]
fn test_filter_parse_errors() {
    assert!(matches!(
        Expression::from_str("nonsense"),
        Err(CsvColError::Filter(_))
    ));
    assert!(matches!(
        Expression::from_str("value >> 10"),
        Err(CsvColError::Filter(_))
    ));
    assert!(matches!(
        Expression::from_str("a > b"),
        Err(CsvColError::Filter(_))
    ));
    assert!(matches!(
        Expression::from_str("value  >  10"),
        Err(CsvColError::Filter(_))
    ));
    assert!(Expression::from_str("value >= -3").is_ok());
    assert!(Expression::from_str("10 != value").is_ok());
}

#[test]
fn test_filter_check_by_name() {
    let expr = Expression::from_str("value > 10").unwrap();
    assert!(expr.check_by_name("value"));
    assert!(!expr.check_by_name("other"));
    assert!(!expr.check_by_name(""));
}

#[test]
fn test_filter_evaluate_operators() {
    let gt = Expression::from_str("value > 10").unwrap();
    assert!(gt.unchacked_validate(&11));
    assert!(!gt.unchacked_validate(&10));

    let le = Expression::from_str("value <= 10").unwrap();
    assert!(le.unchacked_validate(&10));
    assert!(!le.unchacked_validate(&11));

    let eq = Expression::from_str("value == 10").unwrap();
    assert!(eq.unchacked_validate(&10));
    assert!(!eq.unchacked_validate(&9));

    let ne = Expression::from_str("value != 10").unwrap();
    assert!(ne.unchacked_validate(&9));
    assert!(!ne.unchacked_validate(&10));
}
