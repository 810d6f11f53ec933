//! A whole log, line by line: parsing, skipping, weighting, reporting.
use crate::engine::{Engine, Row, Summary};
use crate::row::{field_views, parse_row, row_of, Columns, RowError};
use crate::stream::{anomaly_after, buckets_of, feed, reports_all, run_rows};
use vstd::prelude::*;

verus! {

/// Why a log could not be read to its end.
#[derive(Debug, Clone, Copy, PartialEq, Eq, Structural)]
pub enum RunError {
    /// The line at this position has a timestamp, but a signal that is no
    /// decimal.
    Number { line: usize },
    /// The row at this position finds no room in the month's counters.
    Overflow { line: usize },
}

/// What a log that was read to its end amounts to.
#[derive(Debug, Clone)]
pub struct Report {
    /// One report for each month, in the order of the log.
    pub summaries: Vec<Summary>,
    /// Lines that gave a row.
    pub rows: usize,
    /// Lines left out for want of a timestamp.
    pub skipped: usize,
    /// Rows stamped before their predecessor or more than a day after it.
    pub anomalies: usize,
}

/// The rows that `lines` give, in order; lines that give none are left out.
pub open spec fn rows_of(lines: Seq<Seq<u8>>, delimiter: u8, columns: Columns) -> Seq<Row>
    decreases lines.len(),
{
    if lines.len() == 0 {
        Seq::empty()
    } else {
        let before = rows_of(lines.drop_last(), delimiter, columns);
        match row_of(lines.last(), delimiter, columns) {
            Ok(row) => before.push(row),
            Err(_) => before,
        }
    }
}

/// How many rows are stamped before their predecessor or more than a day
/// after it.
pub open spec fn anomalies_of(rows: Seq<Row>) -> nat
    decreases rows.len(),
{
    if rows.len() == 0 {
        0
    } else {
        anomalies_of(rows.drop_last()) + if anomaly_after(rows.drop_last(), rows.last()) is Some {
            1nat
        } else {
            0nat
        }
    }
}

/// The failure, if any, that line `k` brings to a run that got that far.
pub open spec fn failure_at(lines: Seq<Seq<u8>>, delimiter: u8, columns: Columns, k: int) -> Option<
    RunError,
> {
    match row_of(lines[k], delimiter, columns) {
        Err(RowError::Timestamp) => None,
        Err(RowError::Number) => Some(RunError::Number { line: k as usize }),
        Ok(row) => if run_rows(rows_of(lines.take(k), delimiter, columns)).0.accepts(row) {
            None
        } else {
            Some(RunError::Overflow { line: k as usize })
        },
    }
}

/// Whether none of the first `n` lines brings a failure.
pub open spec fn clean_before(lines: Seq<Seq<u8>>, delimiter: u8, columns: Columns, n: int) -> bool {
    forall|j: int| 0 <= j < n ==> (#[trigger] failure_at(lines, delimiter, columns, j)) is None
}

/// Reads a whole log. Lines without a valid timestamp are skipped and counted;
/// the first line that has one but lacks a signal ends the run with an error,
/// as does a row that the counters have no room for. Otherwise every month is
/// reported, the last one on reaching the end.
pub fn aggregate_lines(lines: &Vec<Vec<u8>>, delimiter: u8, columns: &Columns) -> (r: Result<
    Report,
    RunError,
>)
    ensures
        r matches Err(e) ==> exists|k: int|
            0 <= k < lines.len() && clean_before(field_views(lines@), delimiter, *columns, k)
                && #[trigger] failure_at(field_views(lines@), delimiter, *columns, k) == Some(e),
        r matches Ok(report) ==> {
            let rows = rows_of(field_views(lines@), delimiter, *columns);
            &&& clean_before(field_views(lines@), delimiter, *columns, lines.len() as int)
            &&& reports_all(report.summaries@, buckets_of(rows))
            &&& report.rows == rows.len()
            &&& report.skipped == lines.len() - rows.len()
            &&& report.anomalies == anomalies_of(rows)
        },
{
    let ghost all = field_views(lines@);
    let mut engine = Engine::new();
    let mut summaries: Vec<Summary> = Vec::new();
    let mut rows: usize = 0;
    let mut skipped: usize = 0;
    let mut anomalies: usize = 0;
    let mut i: usize = 0;
    proof {
        assert(all.take(0) =~= Seq::<Seq<u8>>::empty());
    }
    while i < lines.len()
        invariant
            0 <= i <= lines.len(),
            all == field_views(lines@),
            engine.wf(),
            engine@ == run_rows(rows_of(all.take(i as int), delimiter, *columns)).0,
            reports_all(summaries@, run_rows(rows_of(all.take(i as int), delimiter, *columns)).1),
            rows == rows_of(all.take(i as int), delimiter, *columns).len(),
            rows + skipped == i,
            anomalies == anomalies_of(rows_of(all.take(i as int), delimiter, *columns)),
            anomalies <= rows,
            clean_before(all, delimiter, *columns, i as int),
        decreases lines.len() - i,
    {
        let ghost seen = rows_of(all.take(i as int), delimiter, *columns);
        proof {
            assert(all.take(i + 1).drop_last() =~= all.take(i as int));
            assert(all.take(i + 1).last() == all[i as int]);
            assert(all[i as int] == lines@[i as int]@);
        }
        match parse_row(lines[i].as_slice(), delimiter, columns) {
            Err(RowError::Timestamp) => {
                skipped = skipped + 1;
            },
            Err(RowError::Number) => {
                proof {
                    assert(failure_at(all, delimiter, *columns, i as int) == Some(
                        RunError::Number { line: i },
                    ));
                }
                return Err(RunError::Number { line: i });
            },
            Ok(row) => {
                proof {
                    assert(seen.push(row).drop_last() =~= seen);
                }
                match feed(&mut engine, &mut summaries, row, Ghost(seen)) {
                    Err(_) => {
                        proof {
                            assert(failure_at(all, delimiter, *columns, i as int) == Some(
                                RunError::Overflow { line: i },
                            ));
                        }
                        return Err(RunError::Overflow { line: i });
                    },
                    Ok(anomaly) => {
                        if anomaly.is_some() {
                            anomalies = anomalies + 1;
                        }
                        rows = rows + 1;
                    },
                }
            },
        }
        proof {
            assert(failure_at(all, delimiter, *columns, i as int) is None);
        }
        i = i + 1;
    }
    proof {
        assert(all.take(i as int) =~= all);
    }
    if let Some(s) = engine.finish() {
        summaries.push(s);
    }
    Ok(Report { summaries, rows, skipped, anomalies })
}

} // verus!
