//! Per-field column classification: the state machine that decides, field by
//! field, whether a column is numeric, ignored or filtered, and feeds its
//! running statistics.

use vstd::prelude::*;

use crate::filter::{expr_wf, spec_eval, ExprModel, Expression};
use crate::parser::{sum_of, ColStats};
use crate::MedianConfig;

verus! {

/// The error type of the numeric parser of the `lexical-core` crate,
/// declared so that it can be carried inside this crate's own error type.
#[verifier::external_type_specification]
#[verifier::external_body]
pub struct ExLexicalError(lexical_core::Error);

/// What `lexical_core::parse::<i64>` returns on the given bytes: `Some`
/// exactly when the whole field parses as a signed 64-bit integer. The result
/// depends on the bytes alone.
pub uninterp spec fn parsed_i64(s: Seq<u8>) -> Option<i64>;

/// Relies on `lexical_core::parse::<i64>`: parses the complete field as a
/// signed 64-bit integer, deterministically in the bytes.
#[verifier::external_body]
pub fn parse_i64_bytes(field: &[u8]) -> (r: Result<i64, lexical_core::Error>)
    ensures
        r is Ok <==> parsed_i64(field@) is Some,
        r matches Ok(v) ==> parsed_i64(field@) == Some(v),
{
    lexical_core::parse::<i64>(field)
}

/// Why a field of a numeric column was rejected.
#[derive(Debug)]
pub enum ColumnParseError {
    /// The field does not parse as a signed 64-bit integer.
    BadNumber(lexical_core::Error),
    /// Accepting the field would take the running sum, or the running count,
    /// outside its machine range. Overflow is a hard error for the file, not
    /// a silently wrapped or saturated value.
    Overflow,
}

/// The classification of one column, advanced row by row.
pub enum ColumnOption {
    /// No non-sentinel value seen yet.
    Uninitialized,
    /// No non-sentinel value seen yet, and the filter gates this column.
    UninitializedWithFilter(Expression),
    /// Never aggregated: named in the ignore list, or settled non-numeric.
    Ignored,
    /// Committed to numeric typing, with its running statistics.
    Number(ColStats),
    /// Committed to numeric typing, counting only values that pass the
    /// filter.
    FilteredNumber(ColStats, Expression),
}

/// Spec-level shape of a [`ColumnOption`]: a numeric column is abstracted to
/// the sequence of values it has accepted.
#[verifier::ext_equal]
pub enum ColView {
    Uninit,
    UninitFilter(ExprModel),
    Ignored,
    Num(Seq<i64>),
    FilteredNum(Seq<i64>, ExprModel),
}

impl View for ColumnOption {
    type V = ColView;

    open spec fn view(&self) -> ColView {
        match self {
            ColumnOption::Uninitialized => ColView::Uninit,
            ColumnOption::UninitializedWithFilter(e) => ColView::UninitFilter(e@),
            ColumnOption::Ignored => ColView::Ignored,
            ColumnOption::Number(cs) => ColView::Num(cs.values@),
            ColumnOption::FilteredNumber(cs, e) => ColView::FilteredNum(cs.values@, e@),
        }
    }
}

impl ColumnOption {
    /// The statistics agree with their accepted values, the median engine
    /// matches the configured mode, and any filter is well formed.
    pub open spec fn wf(&self, exact: bool, bins: Option<u32>) -> bool {
        match self {
            ColumnOption::Uninitialized => true,
            ColumnOption::UninitializedWithFilter(e) => expr_wf(e@),
            ColumnOption::Ignored => true,
            ColumnOption::Number(cs) => cs.wf() && cs.is_exact() == exact && (!exact
                ==> cs.spec_bins() == bins),
            ColumnOption::FilteredNumber(cs, e) => cs.wf() && cs.is_exact() == exact && (!exact
                ==> cs.spec_bins() == bins) && expr_wf(e@),
        }
    }
}

/// Why the state machine rejected a field.
pub enum StepError {
    BadNumber,
    Overflow,
}

/// Whether a column that accepted `vs` can accept `v` without leaving the
/// machine ranges of its running sum and count.
pub open spec fn can_accept_vals(vs: Seq<i64>, v: i64) -> bool {
    &&& i64::MIN <= sum_of(vs) + v <= i64::MAX
    &&& vs.len() < usize::MAX
}

/// One step of the column state machine on a trimmed, non-sentinel field.
///
/// A parsed value is a no-op on an ignored column, promotes an uninitialized
/// column (subject to its filter, if any), and feeds a numeric column; a
/// value that fails to parse settles an uninitialized column to ignored and
/// is a hard error on a numeric column.
pub open spec fn spec_step(c: ColView, field: Seq<u8>) -> Result<ColView, StepError> {
    match parsed_i64(field) {
        Some(v) => match c {
            ColView::Ignored => Ok(ColView::Ignored),
            ColView::Uninit => Ok(ColView::Num(seq![v])),
            ColView::UninitFilter(e) => Ok(
                ColView::FilteredNum(
                    if spec_eval(e, v) {
                        seq![v]
                    } else {
                        Seq::empty()
                    },
                    e,
                ),
            ),
            ColView::Num(vs) => if can_accept_vals(vs, v) {
                Ok(ColView::Num(vs.push(v)))
            } else {
                Err(StepError::Overflow)
            },
            ColView::FilteredNum(vs, e) => if !spec_eval(e, v) {
                Ok(ColView::FilteredNum(vs, e))
            } else if can_accept_vals(vs, v) {
                Ok(ColView::FilteredNum(vs.push(v), e))
            } else {
                Err(StepError::Overflow)
            },
        },
        None => match c {
            ColView::Num(_) => Err(StepError::BadNumber),
            ColView::FilteredNum(_, _) => Err(StepError::BadNumber),
            _ => Ok(ColView::Ignored),
        },
    }
}

/// Parses a single trimmed, non-sentinel field and advances the column state
/// as [`spec_step`] describes: exactly the accepted values reach the
/// statistics, and a numeric column rejects a malformed or overflowing field
/// with a hard error, leaving its state unchanged.
pub fn parse_column(
    field: &[u8],
    median_config: &MedianConfig,
    stats: &mut ColumnOption,
) -> (r: Result<(), ColumnParseError>)
    requires
        old(stats).wf(median_config.exact_median, median_config.buckets),
    ensures
        final(stats).wf(median_config.exact_median, median_config.buckets),
        match spec_step(old(stats)@, field@) {
            Ok(c) => r is Ok && final(stats)@ == c,
            Err(k) => final(stats)@ == old(stats)@ && match k {
                StepError::BadNumber => r matches Err(ColumnParseError::BadNumber(_)),
                StepError::Overflow => r matches Err(ColumnParseError::Overflow),
            },
        },
{
    let mut cur = ColumnOption::Ignored;
    core::mem::swap(stats, &mut cur);
    match parse_i64_bytes(field) {
        Ok(value) => match cur {
            ColumnOption::Number(mut cs) => {
                let res = cs.update(value);
                *stats = ColumnOption::Number(cs);
                match res {
                    Ok(_) => Ok(()),
                    Err(e) => Err(e),
                }
            },
            ColumnOption::FilteredNumber(mut cs, e) => {
                if e.unchacked_validate(&value) {
                    let res = cs.update(value);
                    *stats = ColumnOption::FilteredNumber(cs, e);
                    match res {
                        Ok(_) => Ok(()),
                        Err(err) => Err(err),
                    }
                } else {
                    *stats = ColumnOption::FilteredNumber(cs, e);
                    Ok(())
                }
            },
            ColumnOption::Uninitialized => {
                let mut cs = ColStats::new(median_config);
                let res = cs.update(value);
                proof {
                    assert(res is Ok);
                    assert(cs.values@ =~= seq![value]);
                }
                *stats = ColumnOption::Number(cs);
                Ok(())
            },
            ColumnOption::UninitializedWithFilter(e) => {
                let mut cs = ColStats::new(median_config);
                if e.unchacked_validate(&value) {
                    let res = cs.update(value);
                    proof {
                        assert(res is Ok);
                        assert(cs.values@ =~= seq![value]);
                    }
                }
                *stats = ColumnOption::FilteredNumber(cs, e);
                Ok(())
            },
            ColumnOption::Ignored => {
                *stats = ColumnOption::Ignored;
                Ok(())
            },
        },
        Err(e) => match cur {
            ColumnOption::Number(cs) => {
                *stats = ColumnOption::Number(cs);
                Err(ColumnParseError::BadNumber(e))
            },
            ColumnOption::FilteredNumber(cs, ex) => {
                *stats = ColumnOption::FilteredNumber(cs, ex);
                Err(ColumnParseError::BadNumber(e))
            },
            _ => {
                *stats = ColumnOption::Ignored;
                Ok(())
            },
        },
    }
}

} // verus!
