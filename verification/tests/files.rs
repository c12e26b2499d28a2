use csv_col_stats::parser::column::ColumnOption::{self, Number};
use csv_col_stats::parser::file::{parse_bytes, parse_reader};
use csv_col_stats::{Config, CsvColError, MedianValue, Stats};

fn build_test_set() -> String {
    "id,value1,value2\n
        1,10,20\n
        2,30,40\n
        3,25,35"
        .to_string()
}

fn build_test_set2() -> String {
    "id,name,value1,value2\n
        1,\"test\",\"\", 10\n
        2,\"foo\",\"\", 20\n
        3,\"boo\",\"N/A\",30 \n
        4,\"foo\",1,40\n
        5,\"boo\",2,50\n
        6,\"foo\",3,60\n"
        .to_string()
}

fn exact_median_f64(stats: &Stats) -> Option<f64> {
    stats.median.as_ref().map(|m| match m {
        MedianValue::Exact { low, high } => (*low as f64 + *high as f64) / 2.0,
        MedianValue::Approximate { .. } => panic!("expected the exact engine"),
    })
}

fn mean_f64(stats: &Stats) -> Option<f64> {
    stats.mean_centi.map(|centi| centi as f64 / 100.0)
}

fn stat_median_f64(stat: &csv_col_stats::parser::ColStats) -> Option<f64> {
    stat.median_approach.calculate().map(|m| match m {
        MedianValue::Exact { low, high } => (low as f64 + high as f64) / 2.0,
        MedianValue::Approximate { .. } => panic!("expected the exact engine"),
    })
}

fn remove_column(output: &mut Vec<(String, Stats)>, name: &str) -> Option<Stats> {
    let pos = output.iter().position(|(column, _)| column == name)?;
    Some(output.remove(pos).1)
}

#[test]
fn test_parse_reader() {
    let data = build_test_set();
    let config = Config::default();

    let result = parse_reader(data.as_bytes(), &config).unwrap();

    assert_eq!(result.len(), 3);

    match result.first() {
        Some((_, Number(stat))) => {
            assert_eq!(stat.min, Some(1));
            assert_eq!(stat.max, Some(3));
            assert_eq!(stat.sum, 6);
            assert_eq!(stat.count, 3);
            assert_eq!(stat_median_f64(stat).unwrap(), 2.);
        }
        _ => panic!("Stat should be initialized"),
    }

    match result.get(1) {
        Some((_, Number(stat))) => {
            assert_eq!(stat.min, Some(10));
            assert_eq!(stat.max, Some(30));
            assert_eq!(stat.sum, 65);
            assert_eq!(stat.count, 3);
            assert_eq!(stat_median_f64(stat).unwrap(), 25.);
        }
        _ => panic!("Stat should be initialized"),
    }

    match result.get(2) {
        Some((_, Number(stat))) => {
            assert_eq!(stat.min, Some(20));
            assert_eq!(stat.max, Some(40));
            assert_eq!(stat.sum, 95);
            assert_eq!(stat.count, 3);
            assert_eq!(stat_median_f64(stat).unwrap(), 35.);
        }
        _ => panic!("Stat should be initialized"),
    }
}

#[test]
fn test_parse_file() {
    let test_set = build_test_set();
    let size = test_set.len() as u64;

    let mut result = parse_bytes(test_set.as_bytes(), size, &Config::default()).unwrap();

    let id_stats = remove_column(&mut result, "id").unwrap();
    assert_eq!(id_stats.min, Some(1));
    assert_eq!(id_stats.max, Some(3));
    assert_eq!(mean_f64(&id_stats), Some(2.));
    assert_eq!(exact_median_f64(&id_stats), Some(2.));

    let value1_stats = remove_column(&mut result, "value1").unwrap();
    assert_eq!(value1_stats.min, Some(10));
    assert_eq!(value1_stats.max, Some(30));
    assert_eq!(mean_f64(&value1_stats), Some(21.67));
    assert_eq!(exact_median_f64(&value1_stats), Some(25.));

    let value2_stats = remove_column(&mut result, "value2").unwrap();
    assert_eq!(value2_stats.min, Some(20));
    assert_eq!(value2_stats.max, Some(40));
    assert_eq!(mean_f64(&value2_stats), Some(31.67));
    assert_eq!(exact_median_f64(&value2_stats), Some(35.));
}

#[test]
fn test_parse_file_empty_fields() {
    let test_set = build_test_set2();
    let size = test_set.len() as u64;

    let mut config = Config::default();
    config.data_config.ignore_columns = vec!["id".to_string()];

    let mut result = parse_bytes(test_set.as_bytes(), size, &config).unwrap();

    assert_eq!(result.len(), 2);

    let value1_stats = remove_column(&mut result, "value1").unwrap();
    assert_eq!(value1_stats.min, Some(1));
    assert_eq!(value1_stats.max, Some(3));
    assert_eq!(mean_f64(&value1_stats), Some(2.));
    assert_eq!(exact_median_f64(&value1_stats), Some(2.));

    let value2_stats = remove_column(&mut result, "value2").unwrap();
    assert_eq!(value2_stats.min, Some(10));
    assert_eq!(value2_stats.max, Some(60));
    assert_eq!(mean_f64(&value2_stats), Some(35.));
    assert_eq!(exact_median_f64(&value2_stats), Some(35.));
}

#[test]
fn test_empty_and_header_only_inputs() {
    let empty = parse_bytes(b"", 0, &Config::default()).unwrap();
    assert!(empty.is_empty());

    let header_only = "a,b\n";
    let result =
        parse_bytes(header_only.as_bytes(), header_only.len() as u64, &Config::default()).unwrap();
    assert!(result.is_empty());
}

#[test]
fn test_malformed_record_is_a_csv_error() {
    let data = "a,b\n1,2,3\n";
    let err = parse_bytes(data.as_bytes(), data.len() as u64, &Config::default()).unwrap_err();
    assert!(matches!(err, CsvColError::CsvParse(_)));
}

#[test]
fn test_column_error_carries_row_and_column() {
    // column "a" commits to numeric typing on row 0 and rejects row 1
    let data = "a,b\n1,2\nx,3\n";
    let err = parse_bytes(data.as_bytes(), data.len() as u64, &Config::default()).unwrap_err();
    match err {
        CsvColError::ColumnParse(row, column, _) => {
            assert_eq!(row, 1);
            assert_eq!(column, 0);
        }
        other => panic!("expected a column error, got {:?}", other),
    }
}

#[test]
fn test_quoted_fields_are_numeric() {
    let data = "a,b\n\"1\",\"2\"\n\"3\",\"4\"\n";
    let mut result = parse_bytes(data.as_bytes(), data.len() as u64, &Config::default()).unwrap();
    let a = remove_column(&mut result, "a").unwrap();
    assert_eq!(a.min, Some(1));
    assert_eq!(a.max, Some(3));
    let b = remove_column(&mut result, "b").unwrap();
    assert_eq!(b.min, Some(2));
    assert_eq!(b.max, Some(4));
}

#[test]
fn test_padded_sentinels_are_skipped() {
    // sentinels are recognized after trimming ASCII whitespace
    let data = "a\n NaN \n 42 \n null\n";
    let result = parse_reader(data.as_bytes(), &Config::default()).unwrap();
    match result.first() {
        Some((_, ColumnOption::Number(stat))) => {
            assert_eq!(stat.count, 1);
            assert_eq!(stat.min, Some(42));
            assert_eq!(stat.max, Some(42));
        }
        _ => panic!("Stat should be initialized"),
    }
}
