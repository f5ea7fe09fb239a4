use vstd::prelude::*;
use vstd::string::*;

use crate::error::{names, ErrorModel, MetricError};
use crate::metric::{metric_views, Metric, Timespec, ToMillis};
use crate::number::{parse_i64, parsed_i64};
use crate::row::Row;
use crate::template::{evaluation, first_absent, placeholders_of, Template};

verus! {

/// The result of a query: its column names, in order, and its rows.
pub struct Matrix {
    pub rows: Vec<Row>,
    pub column_names: Vec<String>,
}

/// A metric as a value: its name, its value and its timestamp.
pub type MetricModel = (Seq<char>, i64, u32);

/// The members of `ns` that do not occur in `within`, in the order of `ns`.
pub open spec fn absent_from(ns: Seq<Seq<char>>, within: Seq<Seq<char>>) -> Seq<Seq<char>>
    decreases ns.len(),
{
    if ns.len() == 0 {
        Seq::empty()
    } else {
        let rest = absent_from(ns.drop_last(), within);
        if within.contains(ns.last()) {
            rest
        } else {
            rest.push(ns.last())
        }
    }
}

/// The name of the metric that `column` gives under the name prefix `prefix`.
pub open spec fn metric_name(prefix: Seq<char>, column: Seq<char>) -> Seq<char> {
    prefix + "."@ + column
}

/// The metrics of one row, one per value column in order, or the error of the
/// first value column whose text is not an integer.
pub open spec fn row_metrics(
    row: Map<Seq<char>, Seq<char>>,
    prefix: Seq<char>,
    columns: Seq<Seq<char>>,
    ts: u32,
) -> Result<Seq<MetricModel>, ErrorModel>
    decreases columns.len(),
{
    if columns.len() == 0 {
        Ok(Seq::empty())
    } else {
        match row_metrics(row, prefix, columns.drop_last(), ts) {
            Err(e) => Err(e),
            Ok(ms) => {
                let c = columns.last();
                match parsed_i64(row[c]) {
                    Some(v) => Ok(ms.push((metric_name(prefix, c), v, ts))),
                    None => Err(ErrorModel::NonNumericValue(c, row[c])),
                }
            },
        }
    }
}

/// The metrics of the rows, row after row, or the first error met.
pub open spec fn rows_metrics(
    rows: Seq<Map<Seq<char>, Seq<char>>>,
    pattern: Seq<char>,
    columns: Seq<Seq<char>>,
    ts: u32,
) -> Result<Seq<MetricModel>, ErrorModel>
    decreases rows.len(),
{
    if rows.len() == 0 {
        Ok(Seq::empty())
    } else {
        match rows_metrics(rows.drop_last(), pattern, columns, ts) {
            Err(e) => Err(e),
            Ok(ms) => match evaluation(pattern, rows.last()) {
                Err(e) => Err(e),
                Ok(prefix) => match row_metrics(rows.last(), prefix, columns, ts) {
                    Err(e) => Err(e),
                    Ok(more) => Ok(ms + more),
                },
            },
        }
    }
}

/// What extracting metrics from a result with these rows and columns gives.
pub open spec fn extraction(
    rows: Seq<Map<Seq<char>, Seq<char>>>,
    columns: Seq<Seq<char>>,
    pattern: Seq<char>,
    ts: u32,
) -> Result<Seq<MetricModel>, ErrorModel> {
    let keys = placeholders_of(pattern);
    let missing = absent_from(keys, columns);
    let values = absent_from(columns, keys);
    if missing.len() > 0 {
        Err(ErrorModel::MissingKeyColumns(missing))
    } else if values.len() == 0 {
        Err(ErrorModel::NoValueColumns)
    } else {
        rows_metrics(rows, pattern, values, ts)
    }
}

/// Each member of `absent_from(ns, within)` is a member of `ns` and not of `within`.
pub proof fn lemma_absent_members(ns: Seq<Seq<char>>, within: Seq<Seq<char>>)
    ensures
        forall|k: int| 0 <= k < absent_from(ns, within).len() ==> ns.contains(
            #[trigger] absent_from(ns, within)[k],
        ) && !within.contains(absent_from(ns, within)[k]),
    decreases ns.len(),
{
    if ns.len() > 0 {
        lemma_absent_members(ns.drop_last(), within);
        let rest = absent_from(ns.drop_last(), within);
        assert forall|k: int| 0 <= k < absent_from(ns, within).len() implies ns.contains(
            #[trigger] absent_from(ns, within)[k],
        ) && !within.contains(absent_from(ns, within)[k]) by {
            if k < rest.len() {
                let j = choose|j: int| 0 <= j < ns.drop_last().len() && ns.drop_last()[j] == rest[k];
                assert(ns[j] == rest[k]);
            } else {
                assert(ns[ns.len() - 1] == ns.last());
            }
        }
    }
}

/// When nothing of `ns` is absent from `within`, each member of `ns` occurs in `within`.
pub proof fn lemma_none_absent(ns: Seq<Seq<char>>, within: Seq<Seq<char>>)
    requires
        absent_from(ns, within).len() == 0,
    ensures
        forall|k: int| 0 <= k < ns.len() ==> within.contains(#[trigger] ns[k]),
    decreases ns.len(),
{
    if ns.len() > 0 {
        if !within.contains(ns.last()) {
            assert(absent_from(ns, within).len() > 0);
        }
        lemma_none_absent(ns.drop_last(), within);
        assert forall|k: int| 0 <= k < ns.len() implies within.contains(#[trigger] ns[k]) by {
            if k < ns.len() - 1 {
                assert(ns[k] == ns.drop_last()[k]);
            }
        }
    }
}

/// An error met in the first `k` value columns is the error of the whole row.
proof fn lemma_row_error_stays(
    row: Map<Seq<char>, Seq<char>>,
    prefix: Seq<char>,
    columns: Seq<Seq<char>>,
    ts: u32,
    k: int,
)
    requires
        0 <= k <= columns.len(),
        row_metrics(row, prefix, columns.take(k), ts) is Err,
    ensures
        row_metrics(row, prefix, columns, ts) == row_metrics(row, prefix, columns.take(k), ts),
    decreases columns.len(),
{
    if k == columns.len() {
        assert(columns.take(k) =~= columns);
    } else {
        assert(columns.drop_last().take(k) =~= columns.take(k));
        lemma_row_error_stays(row, prefix, columns.drop_last(), ts, k);
    }
}

/// An error met in the first `k` rows is the error of the whole extraction.
proof fn lemma_rows_error_stays(
    rows: Seq<Map<Seq<char>, Seq<char>>>,
    pattern: Seq<char>,
    columns: Seq<Seq<char>>,
    ts: u32,
    k: int,
)
    requires
        0 <= k <= rows.len(),
        rows_metrics(rows.take(k), pattern, columns, ts) is Err,
    ensures
        rows_metrics(rows, pattern, columns, ts) == rows_metrics(rows.take(k), pattern, columns, ts),
    decreases rows.len(),
{
    if k == rows.len() {
        assert(rows.take(k) =~= rows);
    } else {
        assert(rows.drop_last().take(k) =~= rows.take(k));
        lemma_rows_error_stays(rows.drop_last(), pattern, columns, ts, k);
    }
}

/// Whether `v` holds a string equal to `x`.
fn contains_name(v: &Vec<String>, x: &String) -> (r: bool)
    ensures
        r == names(v@).contains(x@),
{
    let mut i: usize = 0;
    while i < v.len()
        invariant
            i <= v@.len(),
            forall|j: int| 0 <= j < i ==> v@[j]@ != x@,
        decreases v.len() - i,
    {
        if v[i] == *x {
            assert(names(v@)[i as int] == x@);
            return true;
        }
        i = i + 1;
    }
    assert forall|j: int| 0 <= j < names(v@).len() implies names(v@)[j] != x@ by {
        assert(names(v@)[j] == v@[j]@);
    }
    false
}

/// The strings of `ns` that are not in `within`, in the order of `ns`.
fn missing_from(ns: &Vec<String>, within: &Vec<String>) -> (r: Vec<String>)
    ensures
        names(r@) == absent_from(names(ns@), names(within@)),
{
    let mut r: Vec<String> = Vec::new();
    let mut i: usize = 0;
    assert(names(ns@).take(0) =~= Seq::<Seq<char>>::empty());
    assert(names(r@) =~= Seq::<Seq<char>>::empty());
    while i < ns.len()
        invariant
            i <= ns@.len(),
            names(r@) == absent_from(names(ns@).take(i as int), names(within@)),
        decreases ns.len() - i,
    {
        assert(names(ns@).take(i + 1).drop_last() =~= names(ns@).take(i as int));
        assert(names(ns@).take(i + 1).last() == ns@[i as int]@);
        if !contains_name(within, &ns[i]) {
            let ghost before = r@;
            r.push(ns[i].clone());
            assert(names(r@) =~= names(before).push(ns@[i as int]@));
        }
        i = i + 1;
    }
    assert(names(ns@).take(i as int) =~= names(ns@));
    r
}

impl Matrix {
    /// The rows as mappings.
    pub open spec fn row_maps(&self) -> Seq<Map<Seq<char>, Seq<char>>> {
        self.rows@.map_values(|r: Row| r@)
    }

    /// Every row holds a value for every column that is not a placeholder of `pattern`.
    pub open spec fn holds_value_columns(&self, pattern: Seq<char>) -> bool {
        forall|i: int, j: int|
            0 <= i < self.rows@.len() && 0 <= j < self.column_names@.len()
                && !placeholders_of(pattern).contains(self.column_names@[j]@) ==> (
            #[trigger] self.rows@[i])@.contains_key((#[trigger] self.column_names@[j])@)
    }

    /// Extracts one metric per row and value column, named by `pattern` and
    /// stamped with the millisecond count of `time`.
    ///
    /// The placeholders of `pattern` are the key columns; every other column is
    /// a value column. Fails when a key column is not a column of the result,
    /// when no value column is left, when a row lacks a key column, or when a
    /// value is not an integer.
    pub fn to_metrics(&self, pattern: &str, time: &Timespec) -> (r: Result<Vec<Metric>, MetricError>)
        requires
            self.holds_value_columns(pattern@),
        ensures
            match r {
                Ok(ms) => extraction(self.row_maps(), names(self.column_names@), pattern@, time.spec_to_millis())
                    == Ok::<Seq<MetricModel>, ErrorModel>(metric_views(ms@)),
                Err(e) => extraction(self.row_maps(), names(self.column_names@), pattern@, time.spec_to_millis())
                    == Err::<Seq<MetricModel>, ErrorModel>(e@),
            },
    {
        let template = Template::new(pattern);
        let ghost keys = placeholders_of(pattern@);
        let ghost cols = names(self.column_names@);
        let ghost rows = self.row_maps();
        let missing = missing_from(&template.placeholders, &self.column_names);
        if missing.len() > 0 {
            return Err(MetricError::MissingKeyColumns(missing));
        }
        let value_columns = missing_from(&self.column_names, &template.placeholders);
        if value_columns.len() == 0 {
            return Err(MetricError::NoValueColumns);
        }
        let ghost values = names(value_columns@);
        proof {
            lemma_absent_members(cols, keys);
        }
        let timestamp = time.to_millis();
        let mut metrics: Vec<Metric> = Vec::new();
        let mut i: usize = 0;
        assert(rows.take(0) =~= Seq::<Map<Seq<char>, Seq<char>>>::empty());
        assert(metric_views(metrics@) =~= Seq::<MetricModel>::empty());
        while i < self.rows.len()
            invariant
                self.holds_value_columns(pattern@),
                template.well_formed(),
                template.raw@ == pattern@,
                rows == self.row_maps(),
                cols == names(self.column_names@),
                values == names(value_columns@),
                values == absent_from(cols, keys),
                keys == placeholders_of(pattern@),
                values.len() > 0,
                absent_from(keys, cols).len() == 0,
                forall|k: int| 0 <= k < values.len() ==> cols.contains(#[trigger] values[k]),
                timestamp == time.spec_to_millis(),
                i <= self.rows@.len(),
                rows_metrics(rows.take(i as int), pattern@, values, timestamp) == Ok::<
                    Seq<MetricModel>,
                    ErrorModel,
                >(metric_views(metrics@)),
            decreases self.rows.len() - i,
        {
            let row = &self.rows[i];
            let ghost m = row@;
            assert(rows.take(i + 1).drop_last() =~= rows.take(i as int));
            assert(rows.take(i + 1).last() == m);
            let prefix = match template.evaluate(row) {
                Ok(p) => p,
                Err(e) => {
                    proof {
                        lemma_rows_error_stays(rows, pattern@, values, timestamp, i + 1);
                    }
                    return Err(e);
                },
            };
            let ghost base = metric_views(metrics@);
            let ghost more: Seq<MetricModel> = Seq::empty();
            let mut j: usize = 0;
            assert(values.take(0) =~= Seq::<Seq<char>>::empty());
            assert(base + more =~= base);
            while j < value_columns.len()
                invariant
                    self.holds_value_columns(pattern@),
                    row == &self.rows[i as int],
                    m == row@,
                    i < self.rows@.len(),
                    rows == self.row_maps(),
                    rows.take(i + 1).drop_last() == rows.take(i as int),
                    rows.take(i + 1).last() == m,
                    rows_metrics(rows.take(i as int), pattern@, values, timestamp) == Ok::<
                        Seq<MetricModel>,
                        ErrorModel,
                    >(base),
                    evaluation(pattern@, m) == Ok::<Seq<char>, ErrorModel>(prefix@),
                    values == absent_from(cols, keys),
                    keys == placeholders_of(pattern@),
                    values.len() > 0,
                    absent_from(keys, cols).len() == 0,
                    timestamp == time.spec_to_millis(),
                    cols == names(self.column_names@),
                    values == names(value_columns@),
                    forall|k: int| 0 <= k < values.len() ==> cols.contains(#[trigger] values[k]),
                    j <= values.len(),
                    row_metrics(m, prefix@, values.take(j as int), timestamp) == Ok::<
                        Seq<MetricModel>,
                        ErrorModel,
                    >(more),
                    metric_views(metrics@) == base + more,
                decreases value_columns.len() - j,
            {
                let column = &value_columns[j];
                assert(values.take(j + 1).drop_last() =~= values.take(j as int));
                assert(values.take(j + 1).last() == column@);
                proof {
                    assert(cols.contains(values[j as int]));
                    let c = choose|c: int| 0 <= c < cols.len() && cols[c] == values[j as int];
                    assert(self.column_names@[c]@ == column@);
                    lemma_absent_members(cols, keys);
                    assert(!keys.contains(values[j as int]));
                    assert(self.rows@[i as int]@.contains_key(self.column_names@[c]@));
                }
                let text = row.get(column).unwrap();
                match parse_i64(text.as_str()) {
                    Some(value) => {
                        let mut name = prefix.clone();
                        name.append(".");
                        name.append(column.as_str());
                        let metric = Metric { name, value, timestamp };
                        let ghost before = metrics@;
                        metrics.push(metric);
                        proof {
                            more = more.push((metric_name(prefix@, column@), value, timestamp));
                            assert(metric_views(metrics@) =~= metric_views(before).push(metric@));
                            assert(metric_views(metrics@) =~= base + more);
                        }
                    },
                    None => {
                        proof {
                            let err = ErrorModel::NonNumericValue(column@, text@);
                            assert(row_metrics(m, prefix@, values.take(j + 1), timestamp) == Err::<
                                Seq<MetricModel>,
                                ErrorModel,
                            >(err));
                            lemma_row_error_stays(m, prefix@, values, timestamp, j + 1);
                            assert(rows_metrics(rows.take(i + 1), pattern@, values, timestamp) == Err::<
                                Seq<MetricModel>,
                                ErrorModel,
                            >(err));
                            lemma_rows_error_stays(rows, pattern@, values, timestamp, i + 1);
                        }
                        return Err(MetricError::NonNumericValue(column.clone(), text.clone()));
                    },
                }
                j = j + 1;
            }
            assert(values.take(j as int) =~= values);
            i = i + 1;
        }
        assert(rows.take(i as int) =~= rows);
        Ok(metrics)
    }
}

} // verus!

verus! {

/// A result without rows gives no metric, whatever the pattern, as long as
/// every placeholder of the pattern is a column and some column is not.
pub proof fn lemma_no_rows_no_metrics(columns: Seq<Seq<char>>, pattern: Seq<char>, ts: u32)
    requires
        absent_from(placeholders_of(pattern), columns).len() == 0,
        absent_from(columns, placeholders_of(pattern)).len() > 0,
    ensures
        extraction(Seq::empty(), columns, pattern, ts) == Ok::<Seq<MetricModel>, ErrorModel>(
            Seq::empty(),
        ),
{
}

} // verus!

verus! {

/// When every member of `ns` is a key of `m`, none is absent.
proof fn lemma_first_absent_none(ns: Seq<Seq<char>>, m: Map<Seq<char>, Seq<char>>)
    requires
        forall|q: int| 0 <= q < ns.len() ==> m.contains_key(#[trigger] ns[q]),
    ensures
        first_absent(ns, m) is None,
    decreases ns.len(),
{
    if ns.len() > 0 {
        assert forall|q: int| 0 <= q < ns.drop_first().len() implies m.contains_key(
            #[trigger] ns.drop_first()[q],
        ) by {
            assert(ns.drop_first()[q] == ns[q + 1]);
        }
        lemma_first_absent_none(ns.drop_first(), m);
    }
}

/// A row whose values in `columns` are all integers gives its metrics.
proof fn lemma_row_ok(
    row: Map<Seq<char>, Seq<char>>,
    prefix: Seq<char>,
    columns: Seq<Seq<char>>,
    ts: u32,
)
    requires
        forall|q: int| 0 <= q < columns.len() ==> parsed_i64(row[#[trigger] columns[q]]) is Some,
    ensures
        row_metrics(row, prefix, columns, ts) is Ok,
    decreases columns.len(),
{
    if columns.len() > 0 {
        assert forall|q: int| 0 <= q < columns.drop_last().len() implies parsed_i64(
            row[#[trigger] columns.drop_last()[q]],
        ) is Some by {
            assert(columns.drop_last()[q] == columns[q]);
        }
        lemma_row_ok(row, prefix, columns.drop_last(), ts);
        assert(parsed_i64(row[columns[columns.len() - 1]]) is Some);
    }
}

/// Rows that each evaluate the pattern and hold integers in `columns` give their metrics.
proof fn lemma_rows_ok(
    rows: Seq<Map<Seq<char>, Seq<char>>>,
    pattern: Seq<char>,
    columns: Seq<Seq<char>>,
    ts: u32,
)
    requires
        forall|r: int| 0 <= r < rows.len() ==> (#[trigger] evaluation(pattern, rows[r])) is Ok,
        forall|r: int, q: int|
            0 <= r < rows.len() && 0 <= q < columns.len() ==> parsed_i64(
                #[trigger] rows[r][#[trigger] columns[q]],
            ) is Some,
    ensures
        rows_metrics(rows, pattern, columns, ts) is Ok,
    decreases rows.len(),
{
    if rows.len() > 0 {
        let front = rows.drop_last();
        assert forall|r: int| 0 <= r < front.len() implies (#[trigger] evaluation(
            pattern,
            front[r],
        )) is Ok by {
            assert(front[r] == rows[r]);
            assert(evaluation(pattern, rows[r]) is Ok);
        }
        assert forall|r: int, q: int|
            0 <= r < front.len() && 0 <= q < columns.len() implies parsed_i64(
            #[trigger] front[r][#[trigger] columns[q]],
        ) is Some by {
            assert(front[r] == rows[r]);
        }
        lemma_rows_ok(front, pattern, columns, ts);
        let last = rows.len() - 1;
        assert(evaluation(pattern, rows[last]) is Ok);
        let prefix = evaluation(pattern, rows.last())->Ok_0;
        assert forall|q: int| 0 <= q < columns.len() implies parsed_i64(
            rows.last()[#[trigger] columns[q]],
        ) is Some by {
            assert(parsed_i64(rows[last][columns[q]]) is Some);
        }
        lemma_row_ok(rows.last(), prefix, columns, ts);
    }
}

/// A value that is not an integer fails the whole extraction: no metric is
/// returned, and the error names the first such value, in row-then-column
/// order, together with its column.
pub proof fn lemma_non_numeric_value_fails(
    rows: Seq<Map<Seq<char>, Seq<char>>>,
    columns: Seq<Seq<char>>,
    pattern: Seq<char>,
    ts: u32,
    i: int,
    k: int,
)
    requires
        absent_from(placeholders_of(pattern), columns).len() == 0,
        0 <= i < rows.len(),
        0 <= k < absent_from(columns, placeholders_of(pattern)).len(),
        forall|r: int, q: int|
            0 <= r <= i && 0 <= q < placeholders_of(pattern).len() ==> (#[trigger] rows[r]).contains_key(
                #[trigger] placeholders_of(pattern)[q],
            ),
        parsed_i64(rows[i][absent_from(columns, placeholders_of(pattern))[k]]) is None,
        forall|r: int, q: int|
            0 <= r < i && 0 <= q < absent_from(columns, placeholders_of(pattern)).len()
                ==> parsed_i64(
                #[trigger] rows[r][#[trigger] absent_from(columns, placeholders_of(pattern))[q]],
            ) is Some,
        forall|q: int|
            0 <= q < k ==> parsed_i64(
                rows[i][#[trigger] absent_from(columns, placeholders_of(pattern))[q]],
            ) is Some,
    ensures
        extraction(rows, columns, pattern, ts) == Err::<Seq<MetricModel>, ErrorModel>(
            ErrorModel::NonNumericValue(
                absent_from(columns, placeholders_of(pattern))[k],
                rows[i][absent_from(columns, placeholders_of(pattern))[k]],
            ),
        ),
{
    let keys = placeholders_of(pattern);
    let values = absent_from(columns, keys);
    let row = rows[i];
    let c = values[k];
    let err = ErrorModel::NonNumericValue(c, row[c]);
    assert forall|r: int| 0 <= r <= i implies (#[trigger] evaluation(pattern, rows[r])) is Ok by {
        assert forall|q: int| 0 <= q < keys.len() implies rows[r].contains_key(#[trigger] keys[q]) by {
            assert(rows[r].contains_key(keys[q]));
        }
        lemma_first_absent_none(keys, rows[r]);
    }
    let front = rows.take(i);
    assert forall|r: int| 0 <= r < front.len() implies (#[trigger] evaluation(pattern, front[r])) is Ok by {
        assert(front[r] == rows[r]);
        assert(evaluation(pattern, rows[r]) is Ok);
    }
    assert forall|r: int, q: int|
        0 <= r < front.len() && 0 <= q < values.len() implies parsed_i64(
        #[trigger] front[r][#[trigger] values[q]],
    ) is Some by {
        assert(front[r] == rows[r]);
        assert(parsed_i64(rows[r][values[q]]) is Some);
    }
    lemma_rows_ok(front, pattern, values, ts);
    assert(evaluation(pattern, rows[i]) is Ok);
    let prefix = evaluation(pattern, row)->Ok_0;
    let before = values.take(k);
    assert forall|q: int| 0 <= q < before.len() implies parsed_i64(row[#[trigger] before[q]]) is Some by {
        assert(before[q] == values[q]);
        assert(parsed_i64(rows[i][values[q]]) is Some);
    }
    lemma_row_ok(row, prefix, before, ts);
    assert(values.take(k + 1).drop_last() =~= before);
    assert(values.take(k + 1).last() == c);
    assert(row_metrics(row, prefix, values.take(k + 1), ts) == Err::<Seq<MetricModel>, ErrorModel>(err));
    lemma_row_error_stays(row, prefix, values, ts, k + 1);
    assert(rows.take(i + 1).drop_last() =~= front);
    assert(rows.take(i + 1).last() == row);
    assert(rows_metrics(rows.take(i + 1), pattern, values, ts) == Err::<Seq<MetricModel>, ErrorModel>(err));
    lemma_rows_error_stays(rows, pattern, values, ts, i + 1);
}

} // verus!
