//! Streaming column statistics over delimited tabular data.
//!
//! The crate classifies each column of a delimited input as numeric, ignored
//! or filtered, keeps running statistics (minimum, maximum, sum, count) per
//! numeric column, and maintains a median: exactly, through a two-heap
//! structure, when the declared input size fits the memory budget, or through
//! an approximate quantile sketch otherwise. The sketch itself works in
//! floating point, which this crate does not hold; in approximate mode the
//! accepted values are handed out so that the caller can run the sketch.

use vstd::prelude::*;

pub mod error;
pub mod filter;
pub mod parser;

pub use error::CsvColError;
pub use filter::Expression;
pub use parser::file::{parse_bytes, parse_reader};

use filter::{expr_wf, ExprModel};

verus! {

/// Default memory budget in bytes: 256 MiB.
pub const DEFAULT_MEMORY_BUDGET: usize = 256 * 1024 * 1024;

/// Configuration of the median engine for one file.
pub struct MedianConfig {
    /// Byte budget compared against the declared file size.
    pub memory_budget: usize,
    /// Bin-count override for the approximate quantile sketch.
    pub buckets: Option<u32>,
    /// When true, the exact two-heap median is used.
    pub exact_median: bool,
}

impl Default for MedianConfig {
    /// The default configuration: 256 MiB budget, default bin count, exact median.
    fn default() -> (r: Self)
        ensures
            r.memory_budget == DEFAULT_MEMORY_BUDGET,
            r.buckets is None,
            r.exact_median,
    {
        MedianConfig { memory_budget: DEFAULT_MEMORY_BUDGET, buckets: None, exact_median: true }
    }
}

/// Which rows count toward which columns: an optional filter expression and a
/// list of column names that are never aggregated.
pub struct DataConfig {
    pub filter: Option<Expression>,
    pub ignore_columns: Vec<String>,
}

impl Default for DataConfig {
    /// The default configuration: no filter and no ignored columns.
    fn default() -> (r: Self)
        ensures
            r.filter is None,
            r.ignore_columns@ == Seq::<String>::empty(),
    {
        DataConfig { filter: None, ignore_columns: Vec::new() }
    }
}

impl DataConfig {
    /// The filter, as its spec-level shape.
    pub open spec fn spec_filter(&self) -> Option<ExprModel> {
        match self.filter {
            Some(f) => Some(f@),
            None => None,
        }
    }

    /// The ignored column names, as character sequences.
    pub open spec fn spec_ignore(&self) -> Seq<Seq<char>> {
        self.ignore_columns.deep_view()
    }

    /// The filter, if any, is well formed. Expressions built by the parser
    /// always are.
    pub open spec fn filter_wf(&self) -> bool {
        self.filter matches Some(f) ==> expr_wf(f@)
    }
}

/// Full configuration of one aggregation pass.
pub struct Config {
    pub data_config: DataConfig,
    pub median_config: MedianConfig,
}

impl Default for Config {
    /// The default configuration: no filter, no ignored columns, exact median
    /// under the default budget.
    fn default() -> (r: Self)
        ensures
            r.data_config.filter is None,
            r.data_config.ignore_columns@ == Seq::<String>::empty(),
            r.median_config.memory_budget == DEFAULT_MEMORY_BUDGET,
            r.median_config.buckets is None,
            r.median_config.exact_median,
    {
        Config { data_config: DataConfig::default(), median_config: MedianConfig::default() }
    }
}

impl Config {
    /// Builds the configuration that one run uses: the caller's filter,
    /// ignore list, budget and bin count, with the median mode left exact
    /// until a file's declared size is known.
    pub fn new(
        filter: Option<Expression>,
        ignore_columns: Vec<String>,
        memory_budget: usize,
        buckets: Option<u32>,
    ) -> (r: Config)
        ensures
            r.data_config.filter == filter,
            r.data_config.ignore_columns == ignore_columns,
            r.median_config.memory_budget == memory_budget,
            r.median_config.buckets == buckets,
            r.median_config.exact_median,
    {
        Config {
            data_config: DataConfig { filter, ignore_columns },
            median_config: MedianConfig { memory_budget, buckets, exact_median: true },
        }
    }
}

/// Splits the memory budget evenly across the input files.
pub fn per_file_budget(memory_budget: usize, n_files: usize) -> (r: usize)
    requires
        n_files > 0,
    ensures
        r == memory_budget / n_files,
{
    memory_budget / n_files
}

/// The median of a finalized column.
///
/// In exact mode the two middle values of the sorted data are reported: they
/// are equal for an odd count, and the median is their average for an even
/// count. In approximate mode this crate holds no floating point, so the
/// accepted values and the configured bin count are handed out for the caller
/// to feed to a quantile sketch.
#[derive(Debug, PartialEq)]
pub enum MedianValue {
    Exact { low: i64, high: i64 },
    Approximate { bins: Option<u32>, values: Vec<i64> },
}

/// Spec-level shape of a [`MedianValue`].
#[verifier::ext_equal]
pub enum MedianModel {
    Exact { low: i64, high: i64 },
    Approximate { bins: Option<u32>, values: Seq<i64> },
}

impl View for MedianValue {
    type V = MedianModel;

    open spec fn view(&self) -> MedianModel {
        match self {
            MedianValue::Exact { low, high } => MedianModel::Exact { low: *low, high: *high },
            MedianValue::Approximate { bins, values } => MedianModel::Approximate {
                bins: *bins,
                values: values@,
            },
        }
    }
}

/// Final statistics of one column. `mean_centi` is the mean scaled by one
/// hundred and rounded to the nearest integer (half away from zero), so that
/// the mean is reported to two decimal places without floating point.
#[derive(Debug, PartialEq)]
pub struct Stats {
    pub min: Option<i64>,
    pub max: Option<i64>,
    pub mean_centi: Option<i128>,
    pub median: Option<MedianValue>,
}

/// Spec-level shape of a [`Stats`].
#[verifier::ext_equal]
pub struct StatsModel {
    pub min: Option<i64>,
    pub max: Option<i64>,
    pub mean_centi: Option<i128>,
    pub median: Option<MedianModel>,
}

impl View for Stats {
    type V = StatsModel;

    open spec fn view(&self) -> StatsModel {
        StatsModel {
            min: self.min,
            max: self.max,
            mean_centi: self.mean_centi,
            median: match self.median {
                Some(m) => Some(m@),
                None => None,
            },
        }
    }
}

} // verus!
