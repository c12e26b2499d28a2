//! The median engine: an exact two-heap running median for inputs that fit
//! the memory budget, and a value buffer for the approximate quantile sketch
//! otherwise. The sketch itself computes in floating point, which this crate
//! does not hold, so in approximate mode the accepted values are collected
//! and handed out at finalization for the caller to feed to the sketch.

use vstd::prelude::*;
use vstd::relations::{sorted_by, total_ordering};
use vstd::seq_lib::{lemma_multiset_commutative, lemma_sorted_unique};
use vstd::multiset::Multiset;

use crate::MedianConfig;
use crate::{MedianModel, MedianValue};

verus! {

broadcast use {vstd::seq_lib::group_to_multiset_ensures, vstd::multiset::group_multiset_axioms};

/// The order the median is taken in.
pub open spec fn le_i64() -> spec_fn(i64, i64) -> bool {
    |x: i64, y: i64| x <= y
}

/// A sequence is sorted under `le_i64` iff its halves are and the boundary
/// elements are ordered.
proof fn lemma_sorted_concat(x: Seq<i64>, y: Seq<i64>)
    ensures
        sorted_by(x + y, le_i64()) <==> (sorted_by(x, le_i64()) && sorted_by(y, le_i64()) && (
        x.len() == 0 || y.len() == 0 || le_i64()(x.last(), y.first()))),
{
    let le = le_i64();
    let s = x + y;
    if sorted_by(s, le) {
        assert forall|i: int, j: int| 0 <= i < j < x.len() implies #[trigger] le(x[i], x[j]) by {
            assert(s[i] == x[i]);
            assert(s[j] == x[j]);
        }
        assert forall|i: int, j: int| 0 <= i < j < y.len() implies #[trigger] le(y[i], y[j]) by {
            assert(s[x.len() + i] == y[i]);
            assert(s[x.len() + j] == y[j]);
        }
        if x.len() > 0 && y.len() > 0 {
            assert(s[x.len() - 1] == x.last());
            assert(s[x.len() as int] == y.first());
            assert(le(x.last(), y.first()));
        }
    }
    if sorted_by(x, le) && sorted_by(y, le) && (x.len() == 0 || y.len() == 0 || le(
        x.last(),
        y.first(),
    )) {
        assert forall|i: int, j: int| 0 <= i < j < s.len() implies #[trigger] le(s[i], s[j]) by {
            if j < x.len() {
                assert(s[i] == x[i] && s[j] == x[j]);
            } else if i >= x.len() {
                assert(s[i] == y[i - x.len()] && s[j] == y[j - x.len()]);
            } else {
                assert(s[i] == x[i]);
                assert(s[j] == y[j - x.len()]);
                if i < x.len() - 1 {
                    assert(le(x[i], x.last()));
                }
                if j - x.len() > 0 {
                    assert(le(y.first(), y[j - x.len()]));
                }
            }
        }
    }
}

/// Inserting an element anywhere in a sequence inserts it into the multiset
/// of the sequence's elements.
proof fn lemma_insert_multiset(s: Seq<i64>, k: int, v: i64)
    requires
        0 <= k <= s.len(),
    ensures
        s.insert(k, v).to_multiset() == s.to_multiset().insert(v),
{
    let a = s.subrange(0, k);
    let b = s.subrange(k, s.len() as int);
    assert(s.insert(k, v) == a.push(v) + b);
    lemma_multiset_commutative(a.push(v), b);
    lemma_multiset_commutative(a, b);
    assert(s =~= a + b);
    assert(a.push(v).to_multiset() =~= a.to_multiset().insert(v));
    assert(a.to_multiset().insert(v).add(b.to_multiset()) =~= a.to_multiset().add(
        b.to_multiset(),
    ).insert(v));
}

/// The exact running median: all values seen so far, kept as an ascending
/// lower half and an ascending upper half whose sizes differ by at most one.
/// The view is the concatenation of the halves, which the invariant keeps
/// sorted, so the median is read off at the middle of the view.
pub struct MedianHeap {
    pub bottom: Vec<i64>,
    pub top: Vec<i64>,
}

impl View for MedianHeap {
    type V = Seq<i64>;

    open spec fn view(&self) -> Seq<i64> {
        self.bottom@ + self.top@
    }
}

impl MedianHeap {
    /// The halves hold a sorted split of the values, balanced to within one
    /// element.
    pub open spec fn wf(&self) -> bool {
        &&& sorted_by(self@, le_i64())
        &&& self.bottom@.len() <= self.top@.len() + 1
        &&& self.top@.len() <= self.bottom@.len() + 1
    }

    /// The two middle values of the sorted data: equal for an odd count, the
    /// two distinct middles for an even count, absent for no data.
    pub open spec fn median_model(&self) -> Option<(i64, i64)> {
        let s = self@;
        let n = s.len() as int;
        if n == 0 {
            None
        } else {
            Some((s[(n - 1) / 2], s[n / 2]))
        }
    }

    /// An empty median heap.
    pub fn new() -> (r: Self)
        ensures
            r.wf(),
            r@ == Seq::<i64>::empty(),
    {
        let r = MedianHeap { bottom: Vec::new(), top: Vec::new() };
        proof {
            assert(r@ =~= Seq::<i64>::empty());
        }
        r
    }

    /// Adds one value, keeping the halves sorted, split and balanced.
    pub fn add(&mut self, value: i64)
        requires
            old(self).wf(),
        ensures
            final(self).wf(),
            final(self)@.to_multiset() == old(self)@.to_multiset().insert(value),
            final(self)@.len() == old(self)@.len() + 1,
    {
        proof {
            lemma_sorted_concat(self.bottom@, self.top@);
        }
        let nb = self.bottom.len();
        if nb > 0 && value <= self.bottom[nb - 1] {
            let ghost oldb = self.bottom@;
            let pos = sorted_insert(&mut self.bottom, value);
            proof {
                lemma_insert_multiset(oldb, pos as int, value);
                if (pos as int) < oldb.len() {
                    oldb.insert_ensures(pos as int, value);
                    assert(self.bottom@.last() == oldb.last());
                } else {
                    oldb.insert_ensures(pos as int, value);
                    assert(self.bottom@.last() == value);
                }
                lemma_sorted_concat(self.bottom@, self.top@);
                lemma_multiset_commutative(oldb, self.top@);
                lemma_multiset_commutative(self.bottom@, self.top@);
                assert(self@.to_multiset() =~= old(self)@.to_multiset().insert(value));
            }
        } else if nb == 0 && (self.top.len() == 0 || value <= self.top[0]) {
            self.bottom.push(value);
            proof {
                assert(self.bottom@ =~= old(self).bottom@.push(value));
                assert(self.bottom@ =~= Seq::<i64>::empty().push(value));
                lemma_sorted_concat(self.bottom@, self.top@);
                lemma_multiset_commutative(self.bottom@, self.top@);
                assert(old(self)@ =~= old(self).top@);
                assert(self.bottom@.to_multiset() =~= Multiset::<i64>::empty().insert(value));
                assert(self@.to_multiset() =~= old(self)@.to_multiset().insert(value));
            }
        } else {
            // Either the bottom half is non-empty and the value exceeds its
            // maximum, or the bottom half is empty and the value exceeds the
            // top half's minimum.
            let ghost oldt = self.top@;
            let pos = sorted_insert(&mut self.top, value);
            proof {
                lemma_insert_multiset(oldt, pos as int, value);
                oldt.insert_ensures(pos as int, value);
                if pos == 0 {
                    assert(self.top@.first() == value);
                } else {
                    assert(self.top@.first() == oldt.first());
                }
                lemma_sorted_concat(self.bottom@, self.top@);
                lemma_multiset_commutative(self.bottom@, oldt);
                lemma_multiset_commutative(self.bottom@, self.top@);
                assert(self@.to_multiset() =~= old(self)@.to_multiset().insert(value));
            }
        }
        let ghost mid = *self;
        // Rebalance: the concatenation of the halves is unchanged, so the
        // sorted view is preserved while the sizes return to within one.
        if self.bottom.len() > self.top.len() && self.bottom.len() - self.top.len() > 1 {
            let moved = self.bottom.pop().unwrap();
            self.top.insert(0, moved);
            proof {
                assert(mid.bottom@.drop_last() =~= self.bottom@);
                assert(self.top@ =~= seq![moved] + mid.top@);
                assert(self@ =~= mid@);
            }
        } else if self.top.len() > self.bottom.len() && self.top.len() - self.bottom.len() > 1 {
            let moved = self.top.remove(0);
            self.bottom.push(moved);
            proof {
                assert(self.bottom@ =~= mid.bottom@.push(moved));
                assert(self.top@ =~= mid.top@.drop_first());
                assert(self@ =~= mid@);
            }
        }
        proof {
            assert(self@.to_multiset() == old(self)@.to_multiset().insert(value));
            assert(self@.to_multiset().len() == old(self)@.to_multiset().len() + 1);
        }
    }

    /// Reads the median off the middles of the sorted view.
    pub fn median(&self) -> (r: Option<(i64, i64)>)
        requires
            self.wf(),
        ensures
            r == self.median_model(),
    {
        let nb = self.bottom.len();
        let nt = self.top.len();
        proof {
            assert(self@.len() == nb + nt);
        }
        if nb == 0 && nt == 0 {
            None
        } else if nb > nt {
            let m = self.bottom[nb - 1];
            proof {
                assert(self@[nb - 1] == self.bottom@[nb - 1]);
            }
            Some((m, m))
        } else if nt > nb {
            let m = self.top[0];
            proof {
                assert(self@[nb as int] == self.top@[0]);
            }
            Some((m, m))
        } else {
            let lo = self.bottom[nb - 1];
            let hi = self.top[0];
            proof {
                assert(self@[nb - 1] == self.bottom@[nb - 1]);
                assert(self@[nb as int] == self.top@[0]);
            }
            Some((lo, hi))
        }
    }
}

/// Inserts `value` at its sorted position.
fn sorted_insert(v: &mut Vec<i64>, value: i64) -> (pos: usize)
    requires
        sorted_by(old(v)@, le_i64()),
    ensures
        0 <= pos <= old(v)@.len(),
        final(v)@ == old(v)@.insert(pos as int, value),
        sorted_by(final(v)@, le_i64()),
        forall|m: int| 0 <= m < pos ==> le_i64()(old(v)@[m], value),
        forall|m: int| pos <= m < old(v)@.len() ==> le_i64()(value, old(v)@[m]),
{
    let ghost le = le_i64();
    let n = v.len();
    let mut pos: usize = 0;
    while pos < n && v[pos] <= value
        invariant
            0 <= pos <= n,
            n == v@.len(),
            forall|m: int| 0 <= m < pos ==> le_i64()(v@[m], value),
            sorted_by(v@, le_i64()),
        decreases n - pos,
    {
        pos = pos + 1;
    }
    proof {
        if (pos as int) < v@.len() {
            assert(!le(v@[pos as int], value));
            assert forall|m: int| pos <= m < v@.len() implies #[trigger] le(value, v@[m]) by {
                if m > pos {
                    assert(le(v@[pos as int], v@[m]));
                }
            }
        }
    }
    let ghost oldv = v@;
    v.insert(pos, value);
    proof {
        oldv.insert_ensures(pos as int, value);
        let s = v@;
        assert forall|i: int, j: int| 0 <= i < j < s.len() implies #[trigger] le(s[i], s[j]) by {
            assert(s[pos as int] == value);
            if i < pos {
                assert(s[i] == oldv[i]);
            }
            if j < pos {
                assert(s[j] == oldv[j]);
            }
            if i > pos {
                assert(s[i] == oldv[i - 1]);
            }
            if j > pos {
                assert(s[j] == oldv[j - 1]);
            }
            if i < pos && j < pos {
                assert(le(oldv[i], oldv[j]));
            } else if i > pos && j > pos {
                assert(le(oldv[i - 1], oldv[j - 1]));
            }
        }
    }
    pos
}

/// `le_i64` is a total order.
pub proof fn lemma_le_i64_total()
    ensures
        total_ordering(le_i64()),
{
    let le = le_i64();
    assert forall|x: i64, y: i64| #[trigger] le(x, y) && #[trigger] le(y, x) implies x == y by {}
    assert forall|x: i64, y: i64, z: i64|
        #[trigger] le(x, y) && #[trigger] le(y, z) implies le(x, z) by {}
}

/// For all non-empty inputs, the running two-heap median agrees with the
/// median read from any sorted arrangement of the same values: the element at
/// the middle, or the two elements around it for an even count.
pub proof fn lemma_exact_median_matches_sorted(h: &MedianHeap, s: Seq<i64>)
    requires
        h.wf(),
        sorted_by(s, le_i64()),
        s.to_multiset() == h@.to_multiset(),
        s.len() > 0,
    ensures
        h.median_model() == Some((s[(s.len() - 1) as int / 2], s[s.len() as int / 2])),
{
    lemma_le_i64_total();
    lemma_sorted_unique(s, h@, le_i64());
    assert(s == h@);
}

/// For every non-empty sequence of values, a well-formed heap holding them
/// reports exactly the median obtained by sorting the sequence and taking
/// the middle elements: the one middle element for an odd count, the two
/// middles (whose average is the median) for an even count.
pub proof fn lemma_exact_median_of_values(h: &MedianHeap, values: Seq<i64>)
    requires
        h.wf(),
        h@.to_multiset() == values.to_multiset(),
        values.len() > 0,
    ensures
        h.median_model() == Some(
            (
                values.sort_by(le_i64())[(values.len() - 1) as int / 2],
                values.sort_by(le_i64())[values.len() as int / 2],
            ),
        ),
{
    lemma_le_i64_total();
    values.lemma_sort_by_ensures(le_i64());
    let sorted = values.sort_by(le_i64());
    assert(sorted.to_multiset().len() == sorted.len());
    assert(values.to_multiset().len() == values.len());
    lemma_exact_median_matches_sorted(h, sorted);
}

/// Which median engine a column uses, derived once from the configuration.
pub enum MedianSettings {
    Exact,
    Approximate(Option<u32>),
}

impl MedianSettings {
    /// Reads the engine choice off a [`MedianConfig`].
    pub fn from_config(config: &MedianConfig) -> (r: Self)
        ensures
            r is Exact <==> config.exact_median,
            r matches MedianSettings::Approximate(bins) ==> bins == config.buckets,
    {
        if config.exact_median {
            MedianSettings::Exact
        } else {
            MedianSettings::Approximate(config.buckets)
        }
    }
}

/// One column's median engine: the exact two-heap median, or the buffer of
/// accepted values for the approximate quantile sketch.
pub enum Median {
    Exact(MedianHeap),
    Approximate { bins: Option<u32>, values: Vec<i64> },
}

impl Median {
    /// The engine holds exactly the values `vs`, in arrival order for the
    /// approximate buffer and as a sorted split for the exact heap.
    pub open spec fn matches_values(&self, vs: Seq<i64>) -> bool {
        match self {
            Median::Exact(h) => h.wf() && h@.to_multiset() == vs.to_multiset(),
            Median::Approximate { values, .. } => values@ == vs,
        }
    }

    pub open spec fn is_exact(&self) -> bool {
        self is Exact
    }

    pub open spec fn spec_bins(&self) -> Option<u32> {
        match self {
            Median::Exact(_) => None,
            Median::Approximate { bins, .. } => *bins,
        }
    }

    /// An empty engine of the configured kind.
    pub fn new(config: MedianSettings) -> (r: Self)
        ensures
            r.matches_values(Seq::<i64>::empty()),
            r.is_exact() <==> config is Exact,
            r.spec_bins() == match config {
                MedianSettings::Exact => None::<u32>,
                MedianSettings::Approximate(bins) => bins,
            },
    {
        match config {
            MedianSettings::Exact => {
                let r = Median::Exact(MedianHeap::new());
                proof {
                    assert(Seq::<i64>::empty().to_multiset() =~= Multiset::<i64>::empty());
                }
                r
            },
            MedianSettings::Approximate(bins) => Median::Approximate { bins, values: Vec::new() },
        }
    }

    /// Feeds one accepted value to the engine.
    pub fn add(&mut self, value: i64)
        requires
            old(self).wf_engine(),
        ensures
            final(self).wf_engine(),
            forall|vs: Seq<i64>|
                old(self).matches_values(vs) ==> final(self).matches_values(vs.push(value)),
            final(self).is_exact() == old(self).is_exact(),
            final(self).spec_bins() == old(self).spec_bins(),
    {
        match self {
            Median::Exact(heaps) => {
                heaps.add(value);
            },
            Median::Approximate { values, .. } => {
                values.push(value);
            },
        }
    }

    /// The engine's answer at finalization: the exact middles, or the
    /// collected values for the sketch; absent when no value was accepted.
    pub fn calculate(&self) -> (r: Option<MedianValue>)
        requires
            self.wf_engine(),
        ensures
            match self {
                Median::Exact(h) => r == match h.median_model() {
                    None => None::<MedianValue>,
                    Some(p) => Some(MedianValue::Exact { low: p.0, high: p.1 }),
                },
                Median::Approximate { bins, values } => if values@.len() == 0 {
                    r is None
                } else {
                    r matches Some(m) && m@ == (MedianModel::Approximate {
                        bins: *bins,
                        values: values@,
                    })
                },
            },
    {
        match self {
            Median::Exact(heaps) => match heaps.median() {
                None => None,
                Some((low, high)) => Some(MedianValue::Exact { low, high }),
            },
            Median::Approximate { bins, values } => {
                if values.len() == 0 {
                    None
                } else {
                    let cloned_values = clone_values(values);
                    Some(MedianValue::Approximate { bins: *bins, values: cloned_values })
                }
            },
        }
    }

    /// The structural invariant of the engine itself.
    pub open spec fn wf_engine(&self) -> bool {
        match self {
            Median::Exact(h) => h.wf(),
            Median::Approximate { .. } => true,
        }
    }
}

/// Copies a value buffer.
fn clone_values(values: &Vec<i64>) -> (r: Vec<i64>)
    ensures
        r@ == values@,
{
    let r = values.clone();
    proof {
        assert(r@ =~= values@);
        assert(r@ == values@);
    }
    r
}

} // verus!
