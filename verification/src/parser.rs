//! The aggregation core: field classification, running statistics and the
//! per-file driver.

use vstd::prelude::*;
use vstd::slice::slice_subrange;

use crate::parser::column::ColumnParseError;
use crate::parser::median::{le_i64, lemma_exact_median_of_values, Median, MedianSettings};
use crate::{MedianConfig, MedianModel, Stats, StatsModel};

pub mod column;
pub mod file;
pub mod median;

verus! {

broadcast use vstd::seq_lib::group_to_multiset_ensures;

/// Bytes treated as a missing value once trimmed: the empty field and a fixed
/// set of sentinel tokens.
pub open spec fn spec_is_sentinel(s: Seq<u8>) -> bool {
    ||| s =~= Seq::<u8>::empty()
    ||| s =~= seq![78u8, 97u8, 78u8]  // NaN
    ||| s =~= seq![110u8, 97u8, 110u8]  // nan
    ||| s =~= seq![110u8, 117u8, 108u8, 108u8]  // null
    ||| s =~= seq![78u8, 47u8, 65u8]  // N/A
}

/// Reports whether a trimmed field is a missing-value sentinel.
pub fn is_empty(bytes: &[u8]) -> (r: bool)
    ensures
        r == spec_is_sentinel(bytes@),
{
    let n = bytes.len();
    if n == 0 {
        true
    } else if n == 3 {
        let b0 = bytes[0];
        let b1 = bytes[1];
        let b2 = bytes[2];
        let r = (b0 == 78 && b1 == 97 && b2 == 78) || (b0 == 110 && b1 == 97 && b2 == 110) || (
        b0 == 78 && b1 == 47 && b2 == 65);
        proof {
            if r {
                assert(spec_is_sentinel(bytes@));
            } else {
                assert(!spec_is_sentinel(bytes@));
            }
        }
        r
    } else if n == 4 {
        let b0 = bytes[0];
        let b1 = bytes[1];
        let b2 = bytes[2];
        let b3 = bytes[3];
        let r = b0 == 110 && b1 == 117 && b2 == 108 && b3 == 108;
        proof {
            if r {
                assert(spec_is_sentinel(bytes@));
            } else {
                assert(!spec_is_sentinel(bytes@));
            }
        }
        r
    } else {
        false
    }
}

/// An ASCII whitespace byte: space, tab, line feed, form feed or carriage
/// return.
pub open spec fn spec_is_ws(b: u8) -> bool {
    b == 32 || b == 9 || b == 10 || b == 12 || b == 13
}

fn is_ws(b: u8) -> (r: bool)
    ensures
        r == spec_is_ws(b),
{
    b == 32 || b == 9 || b == 10 || b == 12 || b == 13
}

/// A field with its leading and trailing ASCII whitespace removed.
pub open spec fn spec_trim(s: Seq<u8>) -> Seq<u8>
    decreases s.len(),
{
    if s.len() > 0 && spec_is_ws(s.first()) {
        spec_trim(s.drop_first())
    } else if s.len() > 0 && spec_is_ws(s.last()) {
        spec_trim(s.drop_last())
    } else {
        s
    }
}

/// Removes leading and trailing ASCII whitespace from a field.
pub fn trim_bytes(bytes: &[u8]) -> (r: &[u8])
    ensures
        r@ == spec_trim(bytes@),
{
    let mut i: usize = 0;
    let mut j: usize = bytes.len();
    proof {
        assert(bytes@.subrange(0, bytes@.len() as int) =~= bytes@);
    }
    while i < j && is_ws(bytes[i])
        invariant
            0 <= i <= j <= bytes@.len(),
            spec_trim(bytes@) == spec_trim(bytes@.subrange(i as int, j as int)),
            j == bytes@.len(),
        decreases j - i,
    {
        proof {
            assert(bytes@.subrange(i as int, j as int).drop_first() =~= bytes@.subrange(
                i as int + 1,
                j as int,
            ));
        }
        i = i + 1;
    }
    while i < j && is_ws(bytes[j - 1])
        invariant
            0 <= i <= j <= bytes@.len(),
            spec_trim(bytes@) == spec_trim(bytes@.subrange(i as int, j as int)),
            i < j ==> !spec_is_ws(bytes@[i as int]),
        decreases j,
    {
        proof {
            assert(bytes@.subrange(i as int, j as int).drop_last() =~= bytes@.subrange(
                i as int,
                j as int - 1,
            ));
        }
        j = j - 1;
    }
    proof {
        let t = bytes@.subrange(i as int, j as int);
        assert(t.len() == 0 || !spec_is_ws(t.first()));
        assert(t.len() == 0 || !spec_is_ws(t.last()));
    }
    slice_subrange(bytes, i, j)
}

/// The sum of a sequence of accepted values, as an unbounded integer.
pub open spec fn sum_of(vs: Seq<i64>) -> int
    decreases vs.len(),
{
    if vs.len() == 0 {
        0
    } else {
        sum_of(vs.drop_last()) + vs.last()
    }
}

/// The minimum of a sequence of accepted values, absent for no values.
pub open spec fn spec_min(vs: Seq<i64>) -> Option<i64>
    decreases vs.len(),
{
    if vs.len() == 0 {
        None
    } else {
        match spec_min(vs.drop_last()) {
            None => Some(vs.last()),
            Some(m) => Some(if m > vs.last() { vs.last() } else { m }),
        }
    }
}

/// The maximum of a sequence of accepted values, absent for no values.
pub open spec fn spec_max(vs: Seq<i64>) -> Option<i64>
    decreases vs.len(),
{
    if vs.len() == 0 {
        None
    } else {
        match spec_max(vs.drop_last()) {
            None => Some(vs.last()),
            Some(m) => Some(if m < vs.last() { vs.last() } else { m }),
        }
    }
}

/// The mean scaled by one hundred and rounded to the nearest integer, halves
/// away from zero: the value of `round(100 * sum / count)` over the
/// rationals, written with integer division.
pub open spec fn spec_mean_centi(sum: int, count: int) -> int
    recommends
        count > 0,
{
    if sum >= 0 {
        (200 * sum + count) / (2 * count)
    } else {
        -(((200 * (0 - sum)) + count) / (2 * count))
    }
}

/// The reported centi-mean is the correct rounding of the scaled mean: it
/// differs from the exact rational `100 * sum / count` by at most half a
/// unit in either direction.
pub proof fn lemma_mean_centi_rounds(sum: int, count: int)
    requires
        count > 0,
    ensures
        -count <= 2 * (spec_mean_centi(sum, count) * count - 100 * sum) <= count,
{
    if sum >= 0 {
        let n = 200 * sum + count;
        let d = 2 * count;
        vstd::arithmetic::div_mod::lemma_fundamental_div_mod(n, d);
        vstd::arithmetic::div_mod::lemma_mod_bound(n, d);
        let m = n / d;
        assert(n == d * m + n % d);
        assert(0 <= n % d < d);
        assert(2 * (m * count - 100 * sum) == count - n % d) by (nonlinear_arith)
            requires
                n == d * m + n % d,
                d == 2 * count,
                n == 200 * sum + count,
        {}
    } else {
        let n = 200 * (0 - sum) + count;
        let d = 2 * count;
        vstd::arithmetic::div_mod::lemma_fundamental_div_mod(n, d);
        vstd::arithmetic::div_mod::lemma_mod_bound(n, d);
        let m = n / d;
        assert(n == d * m + n % d);
        assert(0 <= n % d < d);
        assert(2 * ((0 - m) * count - 100 * sum) == n % d - count) by (nonlinear_arith)
            requires
                n == d * m + n % d,
                d == 2 * count,
                n == 200 * (0 - sum) + count,
        {}
    }
}

/// The statistics a column with accepted values `vs` finalizes to, under the
/// given median mode.
pub open spec fn spec_stats(vs: Seq<i64>, exact: bool, bins: Option<u32>) -> StatsModel {
    StatsModel {
        min: spec_min(vs),
        max: spec_max(vs),
        mean_centi: if vs.len() > 0 {
            Some(spec_mean_centi(sum_of(vs), vs.len() as int) as i128)
        } else {
            None
        },
        median: spec_median_of(vs, exact, bins),
    }
}

/// The median a column with accepted values `vs` reports: the two middles of
/// the sorted values in exact mode, the values themselves for the sketch in
/// approximate mode, absent for no values.
pub open spec fn spec_median_of(vs: Seq<i64>, exact: bool, bins: Option<u32>) -> Option<
    MedianModel,
> {
    if vs.len() == 0 {
        None
    } else if exact {
        let s = vs.sort_by(le_i64());
        let n = vs.len() as int;
        Some(MedianModel::Exact { low: s[(n - 1) / 2], high: s[n / 2] })
    } else {
        Some(MedianModel::Approximate { bins, values: vs })
    }
}

/// Running statistics of one numeric column. The ghost field `values` is the
/// sequence of accepted values; the invariant ties every concrete field to
/// it.
pub struct ColStats {
    pub sum: i64,
    pub count: usize,
    pub max: Option<i64>,
    pub min: Option<i64>,
    pub median_approach: Median,
    pub values: Ghost<Seq<i64>>,
}

impl ColStats {
    /// Every concrete field agrees with the accepted values.
    pub open spec fn wf(&self) -> bool {
        &&& self.sum == sum_of(self.values@)
        &&& self.count == self.values@.len()
        &&& self.min == spec_min(self.values@)
        &&& self.max == spec_max(self.values@)
        &&& self.median_approach.wf_engine()
        &&& self.median_approach.matches_values(self.values@)
    }

    /// Whether the exact median engine was chosen.
    pub open spec fn is_exact(&self) -> bool {
        self.median_approach.is_exact()
    }

    /// The sketch bin count carried for approximate mode.
    pub open spec fn spec_bins(&self) -> Option<u32> {
        self.median_approach.spec_bins()
    }

    /// Fresh statistics with the median engine the configuration calls for.
    pub fn new(median_config: &MedianConfig) -> (r: Self)
        ensures
            r.wf(),
            r.values@ == Seq::<i64>::empty(),
            r.is_exact() == median_config.exact_median,
            !median_config.exact_median ==> r.spec_bins() == median_config.buckets,
    {
        ColStats {
            sum: 0,
            count: 0,
            max: None,
            min: None,
            median_approach: Median::new(MedianSettings::from_config(median_config)),
            values: Ghost(Seq::empty()),
        }
    }

    /// Whether one more value fits the machine ranges of the running sum and
    /// count.
    pub open spec fn can_accept(&self, value: i64) -> bool {
        &&& i64::MIN <= self.sum + value <= i64::MAX
        &&& self.count < usize::MAX
    }

    /// Accepts one value: the sum, count, minimum, maximum and median engine
    /// all take it in. A value that would overflow the running sum or count
    /// is refused with an error and leaves the statistics unchanged.
    pub fn update(&mut self, value: i64) -> (r: Result<(), ColumnParseError>)
        requires
            old(self).wf(),
        ensures
            final(self).wf(),
            final(self).is_exact() == old(self).is_exact(),
            final(self).spec_bins() == old(self).spec_bins(),
            old(self).can_accept(value)
                ==> r is Ok && final(self).values@ == old(self).values@.push(value),
            !old(self).can_accept(value)
                ==> (r matches Err(ColumnParseError::Overflow)) && *final(self) == *old(self),
    {
        let ok_sum = if value >= 0 {
            self.sum <= i64::MAX - value
        } else {
            self.sum >= i64::MIN - value
        };
        if !ok_sum || self.count == usize::MAX {
            return Err(ColumnParseError::Overflow);
        }
        let ghost vs = self.values@;
        proof {
            assert(vs.push(value).drop_last() =~= vs);
        }
        self.sum = self.sum + value;
        self.count = self.count + 1;
        match self.max {
            Some(current_max) => if current_max < value {
                self.max = Some(value);
            },
            None => self.max = Some(value),
        }
        match self.min {
            Some(current_min) => if current_min > value {
                self.min = Some(value);
            },
            None => self.min = Some(value),
        }
        self.median_approach.add(value);
        self.values = Ghost(vs.push(value));
        Ok(())
    }

    /// Turns the finished column into its reported statistics.
    pub fn finalize(self) -> (r: Stats)
        requires
            self.wf(),
        ensures
            r@ == spec_stats(self.values@, self.is_exact(), self.spec_bins()),
    {
        let ghost vs = self.values@;
        let mean_centi: Option<i128> = if self.count > 0 {
            let c: u128 = self.count as u128;
            let m: u128 = if self.sum >= 0 {
                self.sum as u128
            } else {
                (-(self.sum as i128)) as u128
            };
            let n: u128 = 200 * m + c;
            let q: u128 = n / (2 * c);
            proof {
                let ci = c as int;
                let ni = n as int;
                let qi = q as int;
                assert(qi <= ni) by (nonlinear_arith)
                    requires
                        ci > 0,
                        ni >= 0,
                        qi == ni / (2 * ci),
                {}
            }
            let signed: i128 = if self.sum >= 0 {
                q as i128
            } else {
                -(q as i128)
            };
            Some(signed)
        } else {
            None
        };
        let median = self.median_approach.calculate();
        proof {
            if self.median_approach is Exact {
                let h = self.median_approach->Exact_0;
                if vs.len() > 0 {
                    lemma_exact_median_of_values(&h, vs);
                } else {
                    assert(h@.to_multiset().len() == 0);
                    assert(h@.len() == 0);
                }
            }
        }
        Stats { min: self.min, max: self.max, mean_centi, median }
    }
}

} // verus!
