//! The per-file driver: reads the tabular input, classifies every column
//! field by field, and finalizes the surviving numeric columns into
//! statistics, preserving header order.

use vstd::prelude::*;

use crate::error::CsvColError;
use crate::filter::{expr_wf, spec_eval, spec_mentions, str_eq, ExprModel};
use crate::parser::column::{
    can_accept_vals, parse_column, parsed_i64, spec_step, ColView, ColumnOption, ColumnParseError,
    StepError,
};
use crate::parser::{is_empty, spec_is_sentinel, spec_stats, spec_trim, sum_of, trim_bytes};
use crate::{Config, DataConfig, MedianConfig, Stats, StatsModel};

verus! {

/// What the tabular reader of the `csv` crate yields on the given bytes,
/// deterministically in the bytes: the header row (`None` when reading it
/// fails), the records read before any structural error, each as its raw
/// byte fields, and whether a structural error cut the stream short.
pub uninterp spec fn csv_scan(data: Seq<u8>) -> (Option<Seq<Seq<char>>>, Seq<Seq<Seq<u8>>>, bool);

/// Relies on `csv::Reader`: reads the header row, then each record as raw
/// byte fields, stopping at the first structural error. The reader is kept
/// at its default, strict configuration, so every yielded record has exactly
/// as many fields as the header row.
#[verifier::external_body]
fn read_csv(data: &[u8]) -> (r: (
    Result<Vec<String>, csv::Error>,
    Vec<Vec<Vec<u8>>>,
    Option<csv::Error>,
))
    ensures
        r.0 is Ok <==> csv_scan(data@).0 is Some,
        r.0 matches Ok(h) ==> h.deep_view() == csv_scan(data@).0->0,
        r.1.deep_view() == csv_scan(data@).1,
        r.2 is Some <==> csv_scan(data@).2,
        csv_scan(data@).0 matches Some(h) ==> forall|i: int|
            0 <= i < r.1.deep_view().len() ==> (#[trigger] r.1.deep_view()[i]).len() == h.len(),
        csv_scan(data@).0 is None ==> r.1.deep_view().len() == 0 && r.2 is None,
{
    let mut rdr = csv::Reader::from_reader(data);
    let headers: Vec<String> = match rdr.headers() {
        Ok(h) => h.iter().map(|f| f.to_string()).collect(),
        Err(e) => return (Err(e), Vec::new(), None),
    };
    let (mut rows, mut trailing) = (Vec::new(), None);
    for record in rdr.byte_records() {
        match record {
            Ok(rec) => rows.push(rec.iter().map(|f| f.to_vec()).collect::<Vec<Vec<u8>>>()),
            Err(e) => { trailing = Some(e); break; },
        }
    }
    (Ok(headers), rows, trailing)
}

/// The classification a column starts in: ignored when its name is listed,
/// gated when the filter mentions it, plain otherwise.
pub open spec fn spec_init_col(
    header: Seq<char>,
    ignore: Seq<Seq<char>>,
    filter: Option<ExprModel>,
) -> ColView {
    if ignore.contains(header) {
        ColView::Ignored
    } else {
        match filter {
            Some(e) => if spec_mentions(e, header) {
                ColView::UninitFilter(e)
            } else {
                ColView::Uninit
            },
            None => ColView::Uninit,
        }
    }
}

/// The fields of column `j`, one per row.
pub open spec fn column_of(rows: Seq<Seq<Seq<u8>>>, j: int) -> Seq<Seq<u8>> {
    Seq::new(rows.len(), |i: int| rows[i][j])
}

/// The whole stream of one column: each field is trimmed, sentinels are
/// skipped, and every other field drives the state machine. The result is
/// the column's final classification, or the index of the first rejected row
/// with the reason.
pub open spec fn spec_scan_col(init: ColView, fields: Seq<Seq<u8>>) -> Result<
    ColView,
    (int, StepError),
>
    decreases fields.len(),
{
    if fields.len() == 0 {
        Ok(init)
    } else {
        let t = spec_trim(fields.first());
        if spec_is_sentinel(t) {
            match spec_scan_col(init, fields.drop_first()) {
                Ok(c) => Ok(c),
                Err((i, k)) => Err((i + 1, k)),
            }
        } else {
            match spec_step(init, t) {
                Ok(c) => match spec_scan_col(c, fields.drop_first()) {
                    Ok(c2) => Ok(c2),
                    Err((i, k)) => Err((i + 1, k)),
                },
                Err(k) => Err((0, k)),
            }
        }
    }
}

/// The spec-level error kind behind a concrete column error.
pub open spec fn step_kind_matches(k: StepError, e: ColumnParseError) -> bool {
    match k {
        StepError::BadNumber => e is BadNumber,
        StepError::Overflow => e is Overflow,
    }
}

/// Whether `name` occurs in the list.
fn contains_name(names: &Vec<String>, name: &str) -> (r: bool)
    ensures
        r == names.deep_view().contains(name@),
{
    let n = names.len();
    let mut i: usize = 0;
    while i < n
        invariant
            0 <= i <= n == names@.len(),
            forall|k: int| 0 <= k < i ==> names.deep_view()[k] != name@,
        decreases n - i,
    {
        proof {
            assert(names.deep_view()[i as int] == names@[i as int]@);
        }
        if str_eq(names[i].as_str(), name) {
            return true;
        }
        i = i + 1;
    }
    proof {
        assert(forall|k: int| 0 <= k < names.deep_view().len() ==> names.deep_view()[k] != name@);
    }
    false
}

/// Builds the starting classification of one column from the configuration.
fn init_column(header: &String, config: &Config) -> (r: ColumnOption)
    requires
        config.data_config.filter_wf(),
    ensures
        r@ == spec_init_col(
            header@,
            config.data_config.spec_ignore(),
            config.data_config.spec_filter(),
        ),
        r.wf(config.median_config.exact_median, config.median_config.buckets),
{
    if contains_name(&config.data_config.ignore_columns, header.as_str()) {
        ColumnOption::Ignored
    } else {
        match &config.data_config.filter {
            Some(f) => {
                if f.check_by_name(header.as_str()) {
                    ColumnOption::UninitializedWithFilter(f.clone())
                } else {
                    ColumnOption::Uninitialized
                }
            },
            None => ColumnOption::Uninitialized,
        }
    }
}

/// Runs one column against every row, as [`spec_scan_col`] describes.
#[verifier::loop_isolation(false)]
fn scan_column(
    rows: &Vec<Vec<Vec<u8>>>,
    j: usize,
    init: ColumnOption,
    median_config: &MedianConfig,
) -> (r: Result<ColumnOption, (usize, ColumnParseError)>)
    requires
        init.wf(median_config.exact_median, median_config.buckets),
        forall|i: int|
            0 <= i < rows.deep_view().len() ==> j < (#[trigger] rows.deep_view()[i]).len(),
    ensures
        match spec_scan_col(init@, column_of(rows.deep_view(), j as int)) {
            Ok(c) => r matches Ok(st) && st@ == c && st.wf(
                median_config.exact_median,
                median_config.buckets,
            ),
            Err((i, k)) => r matches Err(p) && p.0 == i && step_kind_matches(k, p.1),
        },
{
    let ghost fields = column_of(rows.deep_view(), j as int);
    let mut st = init;
    let n = rows.len();
    proof {
        assert(rows.deep_view().len() == rows@.len());
        assert(fields.skip(0) =~= fields);
    }
    let mut i: usize = 0;
    while i < n
        invariant
            0 <= i <= n,
            st.wf(median_config.exact_median, median_config.buckets),
            spec_scan_col(init@, fields) == match spec_scan_col(st@, fields.skip(i as int)) {
                Ok(c) => Ok::<ColView, (int, StepError)>(c),
                Err((r2, k)) => Err((r2 + i, k)),
            },
        decreases n - i,
    {
        let row: &Vec<Vec<u8>> = &rows[i];
        proof {
            assert(rows.deep_view()[i as int] == rows@[i as int].deep_view());
            assert(row.deep_view()[j as int] == row@[j as int]@);
            assert(fields[i as int] == rows.deep_view()[i as int][j as int]);
        }
        let field: &Vec<u8> = &row[j];
        let trimmed = trim_bytes(field.as_slice());
        let ghost rest = fields.skip(i as int);
        proof {
            assert(rest.first() == fields[i as int]);
            assert(rest.drop_first() =~= fields.skip(i as int + 1));
        }
        if !is_empty(trimmed) {
            let res = parse_column(trimmed, median_config, &mut st);
            match res {
                Ok(_) => {},
                Err(e) => {
                    proof {
                        let stepped = spec_step(st@, spec_trim(fields[i as int]));
                        assert(spec_scan_col(st@, rest) matches Err(p2) && p2.0 == 0);
                    }
                    return Err((i, e));
                },
            }
        }
        i = i + 1;
    }
    proof {
        assert(fields.skip(n as int) =~= Seq::<Seq<u8>>::empty());
        assert(spec_scan_col(st@, fields.skip(n as int)) == Ok::<ColView, (int, StepError)>(st@));
    }
    Ok(st)
}

/// The spec-level error kind of a concrete column error.
pub open spec fn kind_of(e: ColumnParseError) -> StepError {
    match e {
        ColumnParseError::BadNumber(_) => StepError::BadNumber,
        ColumnParseError::Overflow => StepError::Overflow,
    }
}

/// Every column's scan succeeds.
pub open spec fn all_columns_ok(
    headers: Seq<Seq<char>>,
    ignore: Seq<Seq<char>>,
    filter: Option<ExprModel>,
    rows: Seq<Seq<Seq<u8>>>,
) -> bool {
    forall|j: int|
        0 <= j < headers.len() ==> (#[trigger] spec_scan_col(
            spec_init_col(headers[j], ignore, filter),
            column_of(rows, j),
        )) is Ok
}

/// The final classification of every column, when every scan succeeds.
pub open spec fn final_states(
    headers: Seq<Seq<char>>,
    ignore: Seq<Seq<char>>,
    filter: Option<ExprModel>,
    rows: Seq<Seq<Seq<u8>>>,
) -> Seq<ColView> {
    Seq::new(
        headers.len(),
        |j: int|
            spec_scan_col(spec_init_col(headers[j], ignore, filter), column_of(rows, j))->Ok_0,
    )
}

/// The error at `(i, j)` is the one the row-by-row stream hits first: its
/// column rejects row `i`, and every other column survives at least to row
/// `i`, those before column `j` strictly past it.
pub open spec fn is_first_error(
    headers: Seq<Seq<char>>,
    ignore: Seq<Seq<char>>,
    filter: Option<ExprModel>,
    rows: Seq<Seq<Seq<u8>>>,
    i: int,
    j: int,
    k: StepError,
) -> bool {
    &&& 0 <= j < headers.len()
    &&& spec_scan_col(spec_init_col(headers[j], ignore, filter), column_of(rows, j))
        == Err::<ColView, (int, StepError)>((i, k))
    &&& forall|j2: int|
        0 <= j2 < headers.len() ==> (match #[trigger] spec_scan_col(
            spec_init_col(headers[j2], ignore, filter),
            column_of(rows, j2),
        ) {
            Ok(_) => true,
            Err((i2, _)) => i < i2 || (i == i2 && j <= j2),
        })
}

/// Reads tabular data from a byte buffer and classifies every column,
/// preserving header order: each listed or never-numeric column ends
/// ignored or uninitialized, every other column ends with its running
/// statistics, and the first rejected field of the stream, in row-major
/// order, aborts the file with its position.
#[verifier::loop_isolation(false)]
pub fn parse_reader(data: &[u8], config: &Config) -> (r: Result<
    Vec<(String, ColumnOption)>,
    CsvColError,
>)
    requires
        config.data_config.filter_wf(),
    ensures
        ({
            let hopt = csv_scan(data@).0;
            let rows = csv_scan(data@).1;
            let trailing = csv_scan(data@).2;
            let ignore = config.data_config.spec_ignore();
            let filter = config.data_config.spec_filter();
            match hopt {
                None => r matches Err(e2) && e2 is CsvParse,
                Some(headers) => {
                    if !all_columns_ok(headers, ignore, filter, rows) {
                        &&& r matches Err(e2)
                        &&& e2 matches CsvColError::ColumnParse(i, j, e3) && is_first_error(
                            headers,
                            ignore,
                            filter,
                            rows,
                            i as int,
                            j as int,
                            kind_of(e3),
                        )
                    } else if trailing {
                        r matches Err(e2) && e2 is CsvParse
                    } else {
                        &&& r matches Ok(v)
                        &&& r->Ok_0@.len() == headers.len()
                        &&& forall|j2: int|
                            0 <= j2 < headers.len() ==> (#[trigger] r->Ok_0@[j2]).0@ == headers[j2]
                                && r->Ok_0@[j2].1@ == final_states(headers, ignore, filter, rows)[j2]
                                && r->Ok_0@[j2].1.wf(
                                config.median_config.exact_median,
                                config.median_config.buckets,
                            )
                    }
                },
            }
        }),
{
    let (hres, rows, trailing) = read_csv(data);
    let headers: Vec<String> = match hres {
        Ok(h) => h,
        Err(e) => {
            return Err(CsvColError::CsvParse(e));
        },
    };
    let ghost gheaders = csv_scan(data@).0->0;
    let ghost grows = csv_scan(data@).1;
    let ghost ignore = config.data_config.spec_ignore();
    let ghost filter = config.data_config.spec_filter();
    let n = headers.len();
    proof {
        assert(headers.deep_view().len() == headers@.len());
        assert(gheaders.len() == n);
    }
    let mut states: Vec<ColumnOption> = Vec::new();
    let mut best: Option<(usize, usize, ColumnParseError)> = None;
    let mut j: usize = 0;
    while j < n
        invariant
            0 <= j <= n,
            states@.len() == j,
            forall|j2: int|
                0 <= j2 < j ==> (match #[trigger] spec_scan_col(
                    spec_init_col(gheaders[j2], ignore, filter),
                    column_of(grows, j2),
                ) {
                    Ok(c) => (#[trigger] states@[j2])@ == c && states@[j2].wf(
                        config.median_config.exact_median,
                        config.median_config.buckets,
                    ),
                    Err(_) => true,
                }),
            best is None ==> forall|j2: int|
                0 <= j2 < j ==> (#[trigger] spec_scan_col(
                    spec_init_col(gheaders[j2], ignore, filter),
                    column_of(grows, j2),
                )) is Ok,
            best matches Some(b) ==> (b.1 as int) < j && spec_scan_col(
                spec_init_col(gheaders[b.1 as int], ignore, filter),
                column_of(grows, b.1 as int),
            ) == Err::<ColView, (int, StepError)>((b.0 as int, kind_of(b.2))),
            best matches Some(b) ==> forall|j2: int|
                0 <= j2 < j ==> (match #[trigger] spec_scan_col(
                    spec_init_col(gheaders[j2], ignore, filter),
                    column_of(grows, j2),
                ) {
                    Ok(_) => true,
                    Err((i2, _)) => (b.0 as int) < i2 || ((b.0 as int) == i2 && (b.1 as int)
                        <= j2),
                }),
        decreases n - j,
    {
        proof {
            assert(headers.deep_view()[j as int] == headers@[j as int]@);
        }
        let st0 = init_column(&headers[j], config);
        match scan_column(&rows, j, st0, &config.median_config) {
            Ok(st) => {
                states.push(st);
            },
            Err(p) => {
                states.push(ColumnOption::Ignored);
                let replace = match &best {
                    None => true,
                    Some(b) => p.0 < b.0,
                };
                if replace {
                    best = Some((p.0, j, p.1));
                }
            },
        }
        j = j + 1;
    }
    match best {
        Some(b) => {
            proof {
                assert(!all_columns_ok(gheaders, ignore, filter, grows));
            }
            return Err(CsvColError::ColumnParse(b.0, b.1, b.2));
        },
        None => {},
    }
    match trailing {
        Some(e) => {
            return Err(CsvColError::CsvParse(e));
        },
        None => {},
    }
    let ghost ostates = states@;
    let ghost oheaders = headers@;
    let mut out: Vec<(String, ColumnOption)> = Vec::new();
    let mut headers_left = headers;
    let mut states_left = states;
    let mut k: usize = 0;
    while k < n
        invariant
            0 <= k <= n,
            out@.len() == k,
            headers_left@ =~= oheaders.skip(k as int),
            states_left@ =~= ostates.skip(k as int),
            oheaders.len() == n,
            ostates.len() == n,
            forall|k2: int|
                0 <= k2 < k ==> (#[trigger] out@[k2]).0 == oheaders[k2] && out@[k2].1
                    == ostates[k2],
        decreases n - k,
    {
        let h = headers_left.remove(0);
        let s = states_left.remove(0);
        proof {
            assert(oheaders.skip(k as int).drop_first() =~= oheaders.skip(k as int + 1));
            assert(ostates.skip(k as int).drop_first() =~= ostates.skip(k as int + 1));
            assert(h == oheaders[k as int]);
            assert(s == ostates[k as int]);
        }
        out.push((h, s));
        k = k + 1;
    }
    Ok(out)
}

/// The output entry of one finished column: its statistics when it committed
/// to numeric typing, nothing otherwise.
pub open spec fn col_entry(
    header: Seq<char>,
    state: ColView,
    exact: bool,
    bins: Option<u32>,
) -> Option<(Seq<char>, StatsModel)> {
    match state {
        ColView::Num(vs) => Some((header, spec_stats(vs, exact, bins))),
        ColView::FilteredNum(vs, _) => Some((header, spec_stats(vs, exact, bins))),
        _ => None,
    }
}

/// The finished output: the entries of the committed columns, in header
/// order; every other column is dropped entirely.
pub open spec fn spec_outputs(
    headers: Seq<Seq<char>>,
    states: Seq<ColView>,
    exact: bool,
    bins: Option<u32>,
) -> Seq<(Seq<char>, StatsModel)>
    decreases headers.len(),
{
    if headers.len() == 0 || states.len() == 0 {
        Seq::empty()
    } else {
        let rest = spec_outputs(headers.drop_last(), states.drop_last(), exact, bins);
        match col_entry(headers.last(), states.last(), exact, bins) {
            Some(e) => rest.push(e),
            None => rest,
        }
    }
}

/// Copies the data configuration for a per-file pass.
fn clone_data_config(dc: &DataConfig) -> (r: DataConfig)
    ensures
        r.spec_filter() == dc.spec_filter(),
        r.spec_ignore() == dc.spec_ignore(),
        r.filter_wf() == dc.filter_wf(),
{
    let filter = match &dc.filter {
        Some(f) => Some(f.clone()),
        None => None,
    };
    let ignore_columns = dc.ignore_columns.clone();
    proof {
        assert forall|i: int|
            0 <= i < ignore_columns@.len() implies ignore_columns@[i]
            == dc.ignore_columns@[i] by {
            assert(vstd::pervasive::cloned::<String>(
                dc.ignore_columns@[i],
                ignore_columns@[i],
            ));
        }
        assert(ignore_columns@ =~= dc.ignore_columns@);
        assert(ignore_columns.deep_view() =~= dc.ignore_columns.deep_view());
    }
    DataConfig { filter, ignore_columns }
}

/// Parses one file's bytes under its declared size: the median mode is
/// chosen by comparing the size against the memory budget, the columns are
/// classified row by row, and the committed columns are finalized into
/// statistics, in header order.
#[verifier::loop_isolation(false)]
pub fn parse_bytes(data: &[u8], file_size: u64, config: &Config) -> (r: Result<
    Vec<(String, Stats)>,
    CsvColError,
>)
    requires
        config.data_config.filter_wf(),
    ensures
        ({
            let exact = config.median_config.memory_budget >= file_size;
            let bins = config.median_config.buckets;
            let hopt = csv_scan(data@).0;
            let rows = csv_scan(data@).1;
            let trailing = csv_scan(data@).2;
            let ignore = config.data_config.spec_ignore();
            let filter = config.data_config.spec_filter();
            match hopt {
                None => r matches Err(e2) && e2 is CsvParse,
                Some(headers) => {
                    if !all_columns_ok(headers, ignore, filter, rows) {
                        &&& r matches Err(e2)
                        &&& e2 matches CsvColError::ColumnParse(i, j, e3) && is_first_error(
                            headers,
                            ignore,
                            filter,
                            rows,
                            i as int,
                            j as int,
                            kind_of(e3),
                        )
                    } else if trailing {
                        r matches Err(e2) && e2 is CsvParse
                    } else {
                        &&& r matches Ok(v)
                        &&& r->Ok_0@.map_values(|p: (String, Stats)| (p.0@, p.1@))
                            == spec_outputs(
                            headers,
                            final_states(headers, ignore, filter, rows),
                            exact,
                            bins,
                        )
                    }
                },
            }
        }),
{
    let exact = (config.median_config.memory_budget as u64) >= file_size;
    let cfg = Config {
        data_config: clone_data_config(&config.data_config),
        median_config: MedianConfig {
            memory_budget: config.median_config.memory_budget,
            buckets: config.median_config.buckets,
            exact_median: exact,
        },
    };
    let ghost gheaders = csv_scan(data@).0->0;
    let ghost grows = csv_scan(data@).1;
    let ghost ignore = config.data_config.spec_ignore();
    let ghost filter = config.data_config.spec_filter();
    let ghost bins = config.median_config.buckets;
    let ghost fstates = final_states(gheaders, ignore, filter, grows);
    let cols = match parse_reader(data, &cfg) {
        Ok(cols) => cols,
        Err(e) => {
            return Err(e);
        },
    };
    let ghost ocols = cols@;
    let n = cols.len();
    proof {
        assert(gheaders.len() == n);
        assert(fstates.len() == n);
    }
    let mut cols_left = cols;
    let mut out: Vec<(String, Stats)> = Vec::new();
    let mut k: usize = 0;
    while k < n
        invariant
            0 <= k <= n,
            cols_left@ =~= ocols.skip(k as int),
            out@.map_values(|p: (String, Stats)| (p.0@, p.1@)) == spec_outputs(
                gheaders.take(k as int),
                fstates.take(k as int),
                exact,
                bins,
            ),
        decreases n - k,
    {
        let pair = cols_left.remove(0);
        proof {
            assert(ocols.skip(k as int).drop_first() =~= ocols.skip(k as int + 1));
            assert(pair == ocols[k as int]);
            assert(gheaders.take(k as int + 1).drop_last() =~= gheaders.take(k as int));
            assert(fstates.take(k as int + 1).drop_last() =~= fstates.take(k as int));
            assert(gheaders.take(k as int + 1).last() == gheaders[k as int]);
            assert(fstates.take(k as int + 1).last() == fstates[k as int]);
        }
        let (h, c) = pair;
        let ghost old_map = out@.map_values(|p: (String, Stats)| (p.0@, p.1@));
        match c {
            ColumnOption::Number(cs) => {
                let st = cs.finalize();
                proof {
                    lemma_stats_bins_irrelevant(cs.values@, exact, cs.spec_bins(), bins);
                }
                out.push((h, st));
                proof {
                    assert(out@.map_values(|p: (String, Stats)| (p.0@, p.1@)) =~= old_map.push(
                        (h@, st@),
                    ));
                }
            },
            ColumnOption::FilteredNumber(cs, _) => {
                let st = cs.finalize();
                proof {
                    lemma_stats_bins_irrelevant(cs.values@, exact, cs.spec_bins(), bins);
                }
                out.push((h, st));
                proof {
                    assert(out@.map_values(|p: (String, Stats)| (p.0@, p.1@)) =~= old_map.push(
                        (h@, st@),
                    ));
                }
            },
            _ => {},
        }
        k = k + 1;
    }
    proof {
        assert(gheaders.take(n as int) =~= gheaders);
        assert(fstates.take(n as int) =~= fstates);
    }
    Ok(out)
}

/// In exact mode the reported statistics do not depend on the sketch bin
/// count.
proof fn lemma_stats_bins_irrelevant(vs: Seq<i64>, exact: bool, b1: Option<u32>, b2: Option<u32>)
    ensures
        exact ==> spec_stats(vs, exact, b1) == spec_stats(vs, exact, b2),
{
    if exact {
        assert(spec_stats(vs, exact, b1) =~= spec_stats(vs, exact, b2));
    }
}

// ---------------------------------------------------------------------------
// Laws of the column scan.
// ---------------------------------------------------------------------------

/// A value in the signed 64-bit range.
pub open spec fn in_i64_range(x: int) -> bool {
    i64::MIN <= x <= i64::MAX
}

/// A scan over fields that are all sentinels leaves any state unchanged.
proof fn lemma_sentinel_scan(init: ColView, fields: Seq<Seq<u8>>)
    requires
        forall|i: int| 0 <= i < fields.len() ==> spec_is_sentinel(spec_trim(#[trigger] fields[i])),
    ensures
        spec_scan_col(init, fields) == Ok::<ColView, (int, StepError)>(init),
    decreases fields.len(),
{
    if fields.len() > 0 {
        assert(spec_is_sentinel(spec_trim(fields[0])));
        assert(forall|i: int|
            0 <= i < fields.drop_first().len() ==> #[trigger] fields.drop_first()[i]
                == fields[i + 1]);
        lemma_sentinel_scan(init, fields.drop_first());
    }
}

/// A scan from the ignored state stays ignored and never errors.
proof fn lemma_ignored_scan(fields: Seq<Seq<u8>>)
    ensures
        spec_scan_col(ColView::Ignored, fields) == Ok::<ColView, (int, StepError)>(
            ColView::Ignored,
        ),
    decreases fields.len(),
{
    if fields.len() > 0 {
        lemma_ignored_scan(fields.drop_first());
    }
}

/// Splitting a scan: once the first `k` fields leave a column in some state,
/// the whole scan is that state scanned over the rest, errors shifted by `k`.
proof fn lemma_scan_split(init: ColView, fields: Seq<Seq<u8>>, k: int)
    requires
        0 <= k <= fields.len(),
        spec_scan_col(init, fields.take(k)) is Ok,
    ensures
        spec_scan_col(init, fields) == (match spec_scan_col(
            spec_scan_col(init, fields.take(k))->Ok_0,
            fields.skip(k),
        ) {
            Ok(c) => Ok::<ColView, (int, StepError)>(c),
            Err((i, kk)) => Err((i + k, kk)),
        }),
    decreases k,
{
    if k == 0 {
        assert(fields.take(0) =~= Seq::<Seq<u8>>::empty());
        assert(fields.skip(0) =~= fields);
    } else {
        let rest = fields.drop_first();
        let tk = fields.take(k);
        assert(tk.first() == fields.first());
        assert(tk.drop_first() =~= rest.take(k - 1));
        assert(rest.skip(k - 1) =~= fields.skip(k));
        let t = spec_trim(fields.first());
        if spec_is_sentinel(t) {
            lemma_scan_split(init, rest, k - 1);
        } else {
            match spec_step(init, t) {
                Ok(c) => {
                    lemma_scan_split(c, rest, k - 1);
                },
                Err(_) => {
                    assert(spec_scan_col(init, tk) is Err);
                },
            }
        }
    }
}

/// For all field sequences containing only sentinel or empty tokens, the
/// column never commits to numeric typing and its output entry is absent
/// from the result mapping.
pub proof fn lemma_sentinel_only_column_absent(
    header: Seq<char>,
    ignore: Seq<Seq<char>>,
    filter: Option<ExprModel>,
    fields: Seq<Seq<u8>>,
    exact: bool,
    bins: Option<u32>,
)
    requires
        forall|i: int| 0 <= i < fields.len() ==> spec_is_sentinel(spec_trim(#[trigger] fields[i])),
    ensures
        spec_scan_col(spec_init_col(header, ignore, filter), fields) == Ok::<
            ColView,
            (int, StepError),
        >(spec_init_col(header, ignore, filter)),
        col_entry(header, spec_init_col(header, ignore, filter), exact, bins) is None,
{
    lemma_sentinel_scan(spec_init_col(header, ignore, filter), fields);
}

/// A column whose first non-sentinel value does not parse as a number is
/// settled to ignored, never errors, and is excluded from the output even if
/// every later value is numeric.
pub proof fn lemma_first_value_non_numeric_excluded(
    header: Seq<char>,
    ignore: Seq<Seq<char>>,
    filter: Option<ExprModel>,
    fields: Seq<Seq<u8>>,
    k0: int,
    exact: bool,
    bins: Option<u32>,
)
    requires
        !ignore.contains(header),
        0 <= k0 < fields.len(),
        forall|i: int| 0 <= i < k0 ==> spec_is_sentinel(spec_trim(#[trigger] fields[i])),
        !spec_is_sentinel(spec_trim(fields[k0])),
        parsed_i64(spec_trim(fields[k0])) is None,
    ensures
        spec_scan_col(spec_init_col(header, ignore, filter), fields) == Ok::<
            ColView,
            (int, StepError),
        >(ColView::Ignored),
        col_entry(header, ColView::Ignored, exact, bins) is None,
{
    let init = spec_init_col(header, ignore, filter);
    assert(forall|i: int|
        0 <= i < fields.take(k0).len() ==> spec_is_sentinel(spec_trim(
            #[trigger] fields.take(k0)[i],
        )));
    lemma_sentinel_scan(init, fields.take(k0));
    lemma_scan_split(init, fields, k0);
    let tail = fields.skip(k0);
    assert(tail.first() == fields[k0]);
    assert(init is Uninit || init is UninitFilter);
    assert(spec_step(init, spec_trim(fields[k0])) == Ok::<ColView, StepError>(ColView::Ignored));
    lemma_ignored_scan(tail.drop_first());
}

/// A column named in the ignore list starts ignored, stays ignored whatever
/// its fields hold, never raises a column-type violation, and never appears
/// in the output.
pub proof fn lemma_ignored_column_never_counts(
    header: Seq<char>,
    ignore: Seq<Seq<char>>,
    filter: Option<ExprModel>,
    fields: Seq<Seq<u8>>,
    exact: bool,
    bins: Option<u32>,
)
    requires
        ignore.contains(header),
    ensures
        spec_init_col(header, ignore, filter) == ColView::Ignored,
        spec_scan_col(ColView::Ignored, fields) == Ok::<ColView, (int, StepError)>(
            ColView::Ignored,
        ),
        col_entry(header, ColView::Ignored, exact, bins) is None,
{
    lemma_ignored_scan(fields);
}

/// The values of a filtered column that count: each field is trimmed,
/// sentinels are dropped, and of the parsed values exactly those that pass
/// the filter remain, in row order.
pub open spec fn qualifying(fields: Seq<Seq<u8>>, e: ExprModel) -> Seq<i64>
    decreases fields.len(),
{
    if fields.len() == 0 {
        Seq::empty()
    } else {
        let t = spec_trim(fields.first());
        let rest = qualifying(fields.drop_first(), e);
        if spec_is_sentinel(t) {
            rest
        } else {
            match parsed_i64(t) {
                Some(v) => if spec_eval(e, v) {
                    seq![v] + rest
                } else {
                    rest
                },
                None => rest,
            }
        }
    }
}

/// Leading sentinel fields do not change the qualifying values.
proof fn lemma_qualifying_skip_sentinels(fields: Seq<Seq<u8>>, e: ExprModel, k: int)
    requires
        0 <= k <= fields.len(),
        forall|i: int| 0 <= i < k ==> spec_is_sentinel(spec_trim(#[trigger] fields[i])),
    ensures
        qualifying(fields, e) == qualifying(fields.skip(k), e),
    decreases k,
{
    if k > 0 {
        assert(spec_is_sentinel(spec_trim(fields.first())));
        assert(fields.drop_first().skip(k - 1) =~= fields.skip(k));
        lemma_qualifying_skip_sentinels(fields.drop_first(), e, k - 1);
    } else {
        assert(fields.skip(0) =~= fields);
    }
}

/// A committed filtered column accepts exactly its qualifying values.
proof fn lemma_scan_filtered(vs: Seq<i64>, e: ExprModel, fields: Seq<Seq<u8>>)
    requires
        expr_wf(e),
        forall|i: int|
            0 <= i < fields.len() ==> (!spec_is_sentinel(spec_trim(#[trigger] fields[i]))
                ==> parsed_i64(spec_trim(fields[i])) is Some),
        forall|k: int|
            0 <= k <= qualifying(fields, e).len() ==> in_i64_range(
                sum_of(#[trigger] (vs + qualifying(fields, e)).take(vs.len() as int + k)),
            ),
        vs.len() + qualifying(fields, e).len() <= usize::MAX,
    ensures
        spec_scan_col(ColView::FilteredNum(vs, e), fields) == Ok::<ColView, (int, StepError)>(
            ColView::FilteredNum(vs + qualifying(fields, e), e),
        ),
    decreases fields.len(),
{
    let q = qualifying(fields, e);
    if fields.len() == 0 {
        assert(vs + q =~= vs);
    } else {
        let t = spec_trim(fields.first());
        let rest = fields.drop_first();
        let qr = qualifying(rest, e);
        if spec_is_sentinel(t) {
            assert(q == qr);
            lemma_scan_filtered(vs, e, rest);
        } else {
            let v = parsed_i64(t)->0;
            if !spec_eval(e, v) {
                assert(q == qr);
                lemma_scan_filtered(vs, e, rest);
                assert(spec_step(ColView::FilteredNum(vs, e), t) == Ok::<ColView, StepError>(
                    ColView::FilteredNum(vs, e),
                ));
            } else {
                assert(q == seq![v] + qr);
                assert(q[0] == v);
                assert(q.len() == qr.len() + 1);
                // one more value fits
                assert((vs + q).take(vs.len() as int + 1) =~= vs.push(v));
                assert(vs.push(v).drop_last() =~= vs);
                assert(sum_of(vs.push(v)) == sum_of(vs) + v);
                assert(in_i64_range(sum_of(vs.push(v))));
                assert(vs.len() < usize::MAX);
                assert(can_accept_vals(vs, v));
                assert(spec_step(ColView::FilteredNum(vs, e), t) == Ok::<ColView, StepError>(
                    ColView::FilteredNum(vs.push(v), e),
                ));
                // the tail requirement, shifted by the accepted value
                assert(vs.push(v) + qr =~= vs + q);
                assert forall|k: int| 0 <= k <= qr.len() implies in_i64_range(
                    sum_of(#[trigger] (vs.push(v) + qr).take(vs.push(v).len() as int + k)),
                ) by {
                    assert((vs.push(v) + qr).take(vs.len() as int + 1 + k) == (vs + q).take(
                        vs.len() as int + (k + 1)));
                    assert(in_i64_range(sum_of((vs + q).take(vs.len() as int + (k + 1)))));
                }
                lemma_scan_filtered(vs.push(v), e, rest);
                assert(vs.push(v) + qr =~= vs + q);
            }
        }
    }
}

/// For a filtered column, values failing the filter do not affect the
/// minimum, maximum, sum, count or median: the column's final state holds
/// exactly the qualifying values, and every reported statistic is computed
/// from them alone.
pub proof fn lemma_filter_gates_values(e: ExprModel, fields: Seq<Seq<u8>>, k0: int)
    requires
        expr_wf(e),
        0 <= k0 < fields.len(),
        forall|i: int| 0 <= i < k0 ==> spec_is_sentinel(spec_trim(#[trigger] fields[i])),
        !spec_is_sentinel(spec_trim(fields[k0])),
        forall|i: int|
            0 <= i < fields.len() ==> (!spec_is_sentinel(spec_trim(#[trigger] fields[i]))
                ==> parsed_i64(spec_trim(fields[i])) is Some),
        forall|k: int|
            0 <= k <= qualifying(fields, e).len() ==> in_i64_range(
                sum_of(#[trigger] qualifying(fields, e).take(k)),
            ),
        qualifying(fields, e).len() < usize::MAX,
    ensures
        spec_scan_col(ColView::UninitFilter(e), fields) == Ok::<ColView, (int, StepError)>(
            ColView::FilteredNum(qualifying(fields, e), e),
        ),
{
    let init = ColView::UninitFilter(e);
    let q = qualifying(fields, e);
    assert(forall|i: int|
        0 <= i < fields.take(k0).len() ==> spec_is_sentinel(spec_trim(
            #[trigger] fields.take(k0)[i],
        )));
    lemma_sentinel_scan(init, fields.take(k0));
    lemma_scan_split(init, fields, k0);
    lemma_qualifying_skip_sentinels(fields, e, k0);
    let tail = fields.skip(k0);
    assert(tail.first() == fields[k0]);
    let t = spec_trim(fields[k0]);
    let v = parsed_i64(t)->0;
    let q0: Seq<i64> = if spec_eval(e, v) {
        seq![v]
    } else {
        Seq::empty()
    };
    assert(spec_step(init, t) == Ok::<ColView, StepError>(ColView::FilteredNum(q0, e)));
    assert(tail.drop_first() =~= fields.skip(k0 + 1));
    let qr = qualifying(fields.skip(k0 + 1), e);
    assert(qualifying(tail, e) == q);
    if spec_eval(e, v) {
        assert(q == seq![v] + qr);
    } else {
        assert(q == qr);
    }
    assert(q0 + qr =~= q);
    assert forall|k: int| 0 <= k <= qr.len() implies in_i64_range(
        sum_of(#[trigger] (q0 + qr).take(q0.len() as int + k)),
    ) by {
        assert((q0 + qr).take(q0.len() as int + k) == q.take(q0.len() as int + k));
        assert(in_i64_range(sum_of(q.take(q0.len() as int + k))));
    }
    lemma_scan_filtered(q0, e, fields.skip(k0 + 1));
    assert(q0 + qr =~= q);
}

/// A non-numeric value in a filtered column still raises a column-type
/// violation once the column has been promoted: with a numeric value at
/// `k0` and the first malformed field at `k1`, the scan aborts exactly
/// there, whatever the filter decided about the values in between.
pub proof fn lemma_filtered_column_still_errors(
    e: ExprModel,
    fields: Seq<Seq<u8>>,
    k0: int,
    k1: int,
)
    requires
        expr_wf(e),
        0 <= k0 < k1 < fields.len(),
        forall|i: int| 0 <= i < k0 ==> spec_is_sentinel(spec_trim(#[trigger] fields[i])),
        !spec_is_sentinel(spec_trim(fields[k0])),
        forall|i: int|
            0 <= i < k1 ==> (!spec_is_sentinel(spec_trim(#[trigger] fields[i])) ==> parsed_i64(
                spec_trim(fields[i]),
            ) is Some),
        !spec_is_sentinel(spec_trim(fields[k1])),
        parsed_i64(spec_trim(fields[k1])) is None,
        forall|k: int|
            0 <= k <= qualifying(fields.take(k1), e).len() ==> in_i64_range(
                sum_of(#[trigger] qualifying(fields.take(k1), e).take(k)),
            ),
        qualifying(fields.take(k1), e).len() < usize::MAX,
    ensures
        spec_scan_col(ColView::UninitFilter(e), fields) == Err::<ColView, (int, StepError)>(
            (k1, StepError::BadNumber),
        ),
{
    let init = ColView::UninitFilter(e);
    let pre = fields.take(k1);
    assert(pre[k0] == fields[k0]);
    assert(forall|i: int| 0 <= i < k0 ==> spec_is_sentinel(spec_trim(#[trigger] pre[i])));
    assert(forall|i: int|
        0 <= i < pre.len() ==> (!spec_is_sentinel(spec_trim(#[trigger] pre[i])) ==> parsed_i64(
            spec_trim(pre[i]),
        ) is Some));
    lemma_filter_gates_values(e, pre, k0);
    lemma_scan_split(init, fields, k1);
    let tail = fields.skip(k1);
    assert(tail.first() == fields[k1]);
    let mid = ColView::FilteredNum(qualifying(pre, e), e);
    assert(spec_step(mid, spec_trim(fields[k1])) == Err::<ColView, StepError>(
        StepError::BadNumber,
    ));
}

} // verus!
