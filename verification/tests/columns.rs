use csv_col_stats::parser::column::{parse_column, ColumnOption, ColumnParseError};
use csv_col_stats::parser::ColStats;
use csv_col_stats::{Expression, MedianConfig, MedianValue};

use ColumnOption::{FilteredNumber, Ignored, Number, Uninitialized, UninitializedWithFilter};

fn stat_median_f64(stat: &ColStats) -> Option<f64> {
    stat.median_approach.calculate().map(|m| match m {
        MedianValue::Exact { low, high } => (low as f64 + high as f64) / 2.0,
        MedianValue::Approximate { .. } => panic!("expected the exact engine"),
    })
}

#[test]
fn test_parse_column() {
    let mut column_stats = [Uninitialized, Uninitialized];

    let median_config = MedianConfig::default();
    parse_column(b"16", &median_config, &mut column_stats[1]).unwrap();

    match column_stats.get(1).unwrap() {
        Number(stat) => {
            assert_eq!(stat.min, Some(16));
            assert_eq!(stat.max, Some(16));
            assert_eq!(stat.sum, 16);
            assert_eq!(stat.count, 1);
            assert_eq!(stat_median_f64(stat).unwrap(), 16.);
        }
        _ => panic!("Stat should be initialized"),
    }

    parse_column(b"4", &median_config, &mut column_stats[1]).unwrap();

    match column_stats.get(1).unwrap() {
        Number(stat) => {
            assert_eq!(stat.min, Some(4));
            assert_eq!(stat.max, Some(16));
            assert_eq!(stat.sum, 20);
            assert_eq!(stat.count, 2);
            assert_eq!(stat_median_f64(stat).unwrap(), 10.);
        }
        _ => panic!("Stat should be initialized"),
    }

    parse_column(b"2", &median_config, &mut column_stats[1]).unwrap();

    match column_stats.get(1).unwrap() {
        Number(stat) => {
            assert_eq!(stat.min, Some(2));
            assert_eq!(stat.max, Some(16));
            assert_eq!(stat.sum, 22);
            assert_eq!(stat.count, 3);
            assert_eq!(stat_median_f64(stat).unwrap(), 4.);
        }
        _ => panic!("Stat should be initialized"),
    }
}

#[test]
fn test_text_parse_column() {
    let mut column_stats = vec![Uninitialized, Uninitialized];

    let median_config = MedianConfig::default();

    parse_column(b"test", &median_config, &mut column_stats[1]).unwrap();

    let item = column_stats.into_iter().nth(1).unwrap();
    match item {
        Uninitialized | Ignored => (),
        _ => panic!("field should be uninitialized"),
    }
}

#[test]
fn test_uninitialized_parse_column() {
    let median_config = MedianConfig::default();
    let mut column_stats = [
        Uninitialized,
        Number(ColStats::new(&median_config)),
        Uninitialized,
    ];

    parse_column(b"120", &median_config, &mut column_stats[2]).unwrap();

    match &column_stats[2] {
        Number(value) => {
            assert_eq!(value.max, Some(120))
        }
        _ => panic!("field should be initialized"),
    }
}

#[test]
fn test_uninitialized_filter_parse_column() {
    let median_config = MedianConfig::default();
    let mut column_stats = [
        Uninitialized,
        UninitializedWithFilter(Expression::from_str("value > 1").unwrap()),
    ];

    parse_column(b"120", &median_config, &mut column_stats[1]).unwrap();

    match &column_stats[1] {
        FilteredNumber(s, _) => {
            assert_eq!(s.max, Some(120))
        }
        _ => panic!("field should be initialized"),
    }
}

#[test]
fn test_filter_out_uninitialized_parse_column() {
    let median_config = MedianConfig::default();
    let mut column_stats = [
        Uninitialized,
        UninitializedWithFilter(Expression::from_str("value > 10").unwrap()),
    ];

    parse_column(b"5", &median_config, &mut column_stats[1]).unwrap();

    match &column_stats[1] {
        FilteredNumber(s, _) => {
            assert_eq!(s.max, None);
            assert_eq!(s.count, 0);
        }
        _ => panic!("field should be initialized"),
    }
}

#[test]
fn test_filter_out_initialized_parse_column() {
    let median_config = MedianConfig::default();
    let mut stat = ColStats::new(&median_config);
    stat.update(20).unwrap();
    let mut column_stats = [
        Uninitialized,
        FilteredNumber(stat, Expression::from_str("value > 10").unwrap()),
    ];

    parse_column(b"5", &median_config, &mut column_stats[1]).unwrap();

    match &column_stats[1] {
        FilteredNumber(s, _) => {
            assert_eq!(s.max, Some(20));
            assert_eq!(s.count, 1);
        }
        _ => panic!("field should be initialized"),
    }
}

#[test]
fn test_filtered_column_rejects_text() {
    // A non-numeric value in a filtered column still raises a
    // column-type violation once the column has been promoted.
    let median_config = MedianConfig::default();
    let mut state = UninitializedWithFilter(Expression::from_str("value > 10").unwrap());

    parse_column(b"5", &median_config, &mut state).unwrap();
    let err = parse_column(b"xyz", &median_config, &mut state).unwrap_err();
    assert!(matches!(err, ColumnParseError::BadNumber(_)));
}

#[test]
fn test_sum_overflow_is_an_error() {
    let median_config = MedianConfig::default();
    let mut state = Uninitialized;

    parse_column(b"9223372036854775807", &median_config, &mut state).unwrap();
    let err = parse_column(b"1", &median_config, &mut state).unwrap_err();
    assert!(matches!(err, ColumnParseError::Overflow));

    // the running statistics are unchanged by the rejected value
    match &state {
        Number(s) => {
            assert_eq!(s.sum, i64::MAX);
            assert_eq!(s.count, 1);
        }
        _ => panic!("column should stay numeric"),
    }
}
