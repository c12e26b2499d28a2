//! Error taxonomy of an aggregation pass.

use vstd::prelude::*;

use crate::parser::column::ColumnParseError;

verus! {

/// The error type of the tabular reader of the `csv` crate, declared so that
/// it can be carried inside this crate's own error type.
#[verifier::external_type_specification]
#[verifier::external_body]
pub struct ExCsvError(csv::Error);

/// What can go wrong while aggregating one input.
///
/// Reading the file itself, a worker thread failing, and a quantile-sketch
/// failure in approximate-median mode are reported by the caller that
/// performs the reads, owns the threads and runs the sketch; they are not
/// part of the aggregation core.
#[derive(Debug)]
pub enum CsvColError {
    /// A field of a column already committed to numeric typing failed to
    /// parse (or its sum left the signed 64-bit range): row index, column
    /// index, and the underlying failure.
    ColumnParse(usize, usize, ColumnParseError),
    /// The filter expression string is malformed.
    Filter(String),
    /// The tabular structure itself is malformed.
    CsvParse(csv::Error),
}

} // verus!
